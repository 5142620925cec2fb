//! The persistent record: one theme idea per user, one team-channel set
//! per user, and the tracked reaction messages. Every mutating call says
//! exactly how the record changes; callers write the record to disk after
//! each mutation.
use vstd::prelude::*;

use crate::channel::Team;
use crate::kvmap::KvMap;

verus! {

/// Everything the bot remembers between restarts.
pub struct PersistentState {
    theme_ideas: KvMap<String>,
    channel_creators: KvMap<Team>,
    eula_channel_id: u64,
    eula_message_id: u64,
    role_assign_channel_id: u64,
    role_assign_message_id: u64,
}

impl PersistentState {
    /// One submitted theme idea per user.
    pub closed spec fn themes(&self) -> Map<u64, String> {
        self.theme_ideas@
    }

    /// One team-channel record per user who created channels.
    pub closed spec fn teams(&self) -> Map<u64, Team> {
        self.channel_creators@
    }

    /// Channel and message of the tracked EULA message; zero until set.
    pub closed spec fn eula_ref(&self) -> (u64, u64) {
        (self.eula_channel_id, self.eula_message_id)
    }

    /// Channel and message of the tracked role-assignment message; zero
    /// until set.
    pub closed spec fn role_assign_ref(&self) -> (u64, u64) {
        (self.role_assign_channel_id, self.role_assign_message_id)
    }

    pub closed spec fn wf(&self) -> bool {
        self.theme_ideas.wf() && self.channel_creators.wf()
    }

    /// The theme entries in insertion order, for serialization.
    pub closed spec fn theme_entries(&self) -> Seq<(u64, String)> {
        self.theme_ideas.entries()
    }

    /// The team entries in insertion order, for serialization.
    pub closed spec fn team_entries(&self) -> Seq<(u64, Team)> {
        self.channel_creators.entries()
    }

    /// The maps are the mathematical content of the entry lists.
    pub proof fn lemma_entries_views(&self)
        ensures
            self.themes() == crate::kvmap::map_of(self.theme_entries()),
            self.teams() == crate::kvmap::map_of(self.team_entries()),
            self.wf() ==> crate::kvmap::unique_keys(self.theme_entries()),
            self.wf() ==> crate::kvmap::unique_keys(self.team_entries()),
    {
        self.theme_ideas.lemma_view_entries();
        self.channel_creators.lemma_view_entries();
    }

    pub fn theme_entry_len(&self) -> (r: usize)
        ensures
            r == self.theme_entries().len(),
    {
        self.theme_ideas.entry_len()
    }

    pub fn theme_entry_at(&self, i: usize) -> (r: (u64, &String))
        requires
            i < self.theme_entries().len(),
        ensures
            r.0 == self.theme_entries()[i as int].0,
            *r.1 == self.theme_entries()[i as int].1,
    {
        self.theme_ideas.entry_at(i)
    }

    pub fn team_entry_len(&self) -> (r: usize)
        ensures
            r == self.team_entries().len(),
    {
        self.channel_creators.entry_len()
    }

    pub fn team_entry_at(&self, i: usize) -> (r: (u64, &Team))
        requires
            i < self.team_entries().len(),
        ensures
            r.0 == self.team_entries()[i as int].0,
            *r.1 == self.team_entries()[i as int].1,
    {
        self.channel_creators.entry_at(i)
    }

    /// The record of a fresh install: no submissions, no teams, both
    /// tracked references unset.
    pub fn new() -> (r: Self)
        ensures
            r.wf(),
            r.themes() == Map::<u64, String>::empty(),
            r.teams() == Map::<u64, Team>::empty(),
            r.theme_entries() == Seq::<(u64, String)>::empty(),
            r.team_entries() == Seq::<(u64, Team)>::empty(),
            r.eula_ref() == (0u64, 0u64),
            r.role_assign_ref() == (0u64, 0u64),
    {
        PersistentState {
            theme_ideas: KvMap::new(),
            channel_creators: KvMap::new(),
            eula_channel_id: 0,
            eula_message_id: 0,
            role_assign_channel_id: 0,
            role_assign_message_id: 0,
        }
    }

    /// Whether the user has a registered team-channel set.
    pub fn has_created_channel(&self, id: u64) -> (r: bool)
        requires
            self.wf(),
        ensures
            r == self.teams().contains_key(id),
    {
        self.channel_creators.contains_key(id)
    }

    /// The user's registered team-channel set, if any.
    pub fn get_channel_info(&self, id: u64) -> (r: Option<&Team>)
        requires
            self.wf(),
        ensures
            match r {
                Some(t) => self.teams().contains_key(id) && *t == self.teams()[id],
                None => !self.teams().contains_key(id),
            },
    {
        self.channel_creators.get(id)
    }

    /// Registers (or overwrites) the user's team-channel set.
    pub fn register_channel_creation(&mut self, user_id: u64, team: &Team)
        requires
            old(self).wf(),
        ensures
            final(self).wf(),
            final(self).teams() == old(self).teams().insert(user_id, *team),
            !old(self).teams().contains_key(user_id) ==> final(self).team_entries() == old(
                self,
            ).team_entries().push((user_id, *team)),
            final(self).themes() == old(self).themes(),
            final(self).theme_entries() == old(self).theme_entries(),
            final(self).eula_ref() == old(self).eula_ref(),
            final(self).role_assign_ref() == old(self).role_assign_ref(),
    {
        self.channel_creators.insert(user_id, team.clone());
    }

    /// Removes the user's team-channel set; doing so for a user without
    /// one changes nothing.
    pub fn remove_channel(&mut self, user_id: u64)
        requires
            old(self).wf(),
        ensures
            final(self).wf(),
            final(self).teams() == old(self).teams().remove(user_id),
            !final(self).teams().contains_key(user_id),
            final(self).themes() == old(self).themes(),
            final(self).eula_ref() == old(self).eula_ref(),
            final(self).role_assign_ref() == old(self).role_assign_ref(),
    {
        self.channel_creators.remove(user_id);
    }

    /// Points the tracked role-assignment message at a new channel and
    /// message, overwriting whatever was there.
    pub fn set_role_assign(&mut self, channel_id: u64, message_id: u64)
        requires
            old(self).wf(),
        ensures
            final(self).wf(),
            final(self).role_assign_ref() == (channel_id, message_id),
            final(self).eula_ref() == old(self).eula_ref(),
            final(self).themes() == old(self).themes(),
            final(self).teams() == old(self).teams(),
            final(self).theme_entries() == old(self).theme_entries(),
            final(self).team_entries() == old(self).team_entries(),
    {
        self.role_assign_channel_id = channel_id;
        self.role_assign_message_id = message_id;
    }

    pub fn get_role_assign_channel(&self) -> (r: u64)
        ensures
            r == self.role_assign_ref().0,
    {
        self.role_assign_channel_id
    }

    pub fn get_role_assign_message(&self) -> (r: u64)
        ensures
            r == self.role_assign_ref().1,
    {
        self.role_assign_message_id
    }

    /// Points the tracked EULA message at a new channel and message,
    /// overwriting whatever was there.
    pub fn set_eula(&mut self, channel_id: u64, message_id: u64)
        requires
            old(self).wf(),
        ensures
            final(self).wf(),
            final(self).eula_ref() == (channel_id, message_id),
            final(self).role_assign_ref() == old(self).role_assign_ref(),
            final(self).themes() == old(self).themes(),
            final(self).teams() == old(self).teams(),
            final(self).theme_entries() == old(self).theme_entries(),
            final(self).team_entries() == old(self).team_entries(),
    {
        self.eula_channel_id = channel_id;
        self.eula_message_id = message_id;
    }

    pub fn get_eula_channel(&self) -> (r: u64)
        ensures
            r == self.eula_ref().0,
    {
        self.eula_channel_id
    }

    pub fn get_eula_message(&self) -> (r: u64)
        ensures
            r == self.eula_ref().1,
    {
        self.eula_message_id
    }

    /// How many users have submitted a theme idea.
    pub fn theme_count(&self) -> (r: usize)
        requires
            self.wf(),
        ensures
            r == self.themes().dom().len(),
            self.themes().dom().finite(),
    {
        self.theme_ideas.len()
    }

    /// The submitted ideas, one per submitting user.
    pub fn theme_idea_list(&self) -> (r: Vec<String>)
        requires
            self.wf(),
        ensures
            r@.len() == self.themes().dom().len(),
            r@.len() == self.theme_entries().len(),
            forall|i: int| 0 <= i < r@.len() ==> (#[trigger] r@[i])@ == self.theme_entries()[i].1@,
            forall|k: u64| #[trigger]
                self.themes().contains_key(k) ==> crate::kvmap::seq_has_string(
                    r@,
                    self.themes()[k]@,
                ),
            forall|i: int|
                0 <= i < r@.len() ==> crate::kvmap::map_has_string(
                    self.themes(),
                    (#[trigger] r@[i])@,
                ),
    {
        self.theme_ideas.values()
    }

    /// Stores the user's idea, replacing any previous one, and reports
    /// the idea it replaced.
    pub fn try_add_theme(&mut self, user: u64, idea: String) -> (r: SubmissionResult)
        requires
            old(self).wf(),
        ensures
            final(self).wf(),
            final(self).themes() == old(self).themes().insert(user, idea),
            !old(self).themes().contains_key(user) ==> final(self).theme_entries() == old(
                self,
            ).theme_entries().push((user, idea)),
            final(self).teams() == old(self).teams(),
            final(self).team_entries() == old(self).team_entries(),
            final(self).eula_ref() == old(self).eula_ref(),
            final(self).role_assign_ref() == old(self).role_assign_ref(),
            match r {
                SubmissionResult::Done => !old(self).themes().contains_key(user),
                SubmissionResult::AlreadySubmitted { previous_submission } => old(
                    self,
                ).themes().contains_key(user) && previous_submission@ == old(
                    self,
                ).themes()[user]@,
            },
    {
        let prev = match self.theme_ideas.get(user) {
            Some(p) => Some(p.clone()),
            None => None,
        };
        self.theme_ideas.insert(user, idea);
        match prev {
            Some(p) => SubmissionResult::AlreadySubmitted { previous_submission: p },
            None => SubmissionResult::Done,
        }
    }
}

/// What storing a theme idea found: a first submission, or a replacement
/// reporting the idea that was replaced.
#[derive(Debug)]
pub enum SubmissionResult {
    Done,
    AlreadySubmitted { previous_submission: String },
}

/// Whether a user has a team is governed only by registration and
/// removal for that user: a fresh record has no team, registering one
/// makes it present, removing makes it absent, and registrations or
/// removals for another user leave it alone.
pub proof fn lemma_team_lifecycle(teams: Map<u64, Team>, user: u64, other: u64, team: Team)
    requires
        other != user,
    ensures
        !Map::<u64, Team>::empty().contains_key(user),
        teams.insert(user, team).contains_key(user),
        !teams.remove(user).contains_key(user),
        teams.insert(other, team).contains_key(user) == teams.contains_key(user),
        teams.remove(other).contains_key(user) == teams.contains_key(user),
{
}

/// Only the latest submission per user is retained: after submitting `a`
/// and then `b`, the record holds `b`, and the record seen by the second
/// submission (the "previous" idea it reports) is exactly `a`.
pub proof fn lemma_theme_resubmission(themes: Map<u64, String>, user: u64, a: String, b: String)
    ensures
        themes.insert(user, a).contains_key(user),
        themes.insert(user, a)[user] == a,
        themes.insert(user, a).insert(user, b) == themes.insert(user, b),
        themes.insert(user, a).insert(user, b)[user] == b,
{
    assert(themes.insert(user, a).insert(user, b) =~= themes.insert(user, b));
}

} // verus!
