//! Theme-idea collection and theme generation: storing one single-word
//! idea per user, and drawing two distinct stored ideas in random order.
use vstd::prelude::*;

use crate::roles;
use crate::state::{PersistentState, SubmissionResult};
use crate::text::{comma_join, join_with_commas, tokens_of};

verus! {

/// Declares rand's thread-local generator type so that a handle to it
/// can pass through verified code; it is opaque here.
#[verifier::external_type_specification]
#[verifier::external_body]
pub struct ExThreadRng(rand::rngs::ThreadRng);

/// Relies on rand::rng: a handle to the thread-local generator.
#[verifier::external_body]
fn new_thread_rng() -> rand::rngs::ThreadRng {
    rand::rng()
}

/// Relies on rand::seq::index::sample: two distinct indices below
/// `length`, which `length >= 2` makes possible.
#[verifier::external_body]
fn sample_two(rng: &mut rand::rngs::ThreadRng, length: usize) -> (r: (usize, usize))
    requires
        2 <= length,
    ensures
        r.0 < length,
        r.1 < length,
        r.0 != r.1,
{
    let pair = rand::seq::index::sample(rng, length, 2);
    (pair.index(0), pair.index(1))
}

/// Relies on rand::random: an arbitrary bool, deciding the output order.
#[verifier::external_body]
fn random_flip() -> bool {
    rand::random()
}

/// A submission is stored only when it is exactly one
/// whitespace-delimited token.
pub open spec fn single_token(content: Seq<char>) -> bool {
    tokens_of(content).len() == 1
}

pub open spec fn theme_rejection_message() -> Seq<char> {
    "Themes ideas should only be a single word."@
}

pub open spec fn theme_registered_spec(content: Seq<char>) -> Seq<char> {
    "Theme idea \""@ + content + "\" registered, thanks!"@
}

pub open spec fn theme_replaced_spec(content: Seq<char>, prev: Seq<char>) -> Seq<char> {
    "You can only submit one idea.\nTheme idea \""@ + content
        + "\" registered, replacing your previous submission \""@ + prev + "\"."@
}

/// Handles a theme submission: anything but a single word is rejected and
/// the record untouched; a single word replaces the user's stored idea,
/// and the reply names the idea it replaced, if any.
pub fn handle_add_theme(state: &mut PersistentState, user: u64, content: &str) -> (reply: String)
    requires
        old(state).wf(),
    ensures
        final(state).wf(),
        final(state).teams() == old(state).teams(),
        final(state).eula_ref() == old(state).eula_ref(),
        final(state).role_assign_ref() == old(state).role_assign_ref(),
        !single_token(content@) ==> final(state).themes() == old(state).themes() && reply@
            == theme_rejection_message(),
        single_token(content@) ==> {
            &&& final(state).themes().contains_key(user)
            &&& final(state).themes()[user]@ == content@
            &&& final(state).themes().dom() == old(state).themes().dom().insert(user)
            &&& forall|u2: u64|
                u2 != user ==> final(state).themes().contains_key(u2) == old(
                    state,
                ).themes().contains_key(u2)
            &&& forall|u2: u64|
                u2 != user && old(state).themes().contains_key(u2) ==> final(state).themes()[u2]
                    == old(state).themes()[u2]
            &&& reply@ == if old(state).themes().contains_key(user) {
                theme_replaced_spec(content@, old(state).themes()[user]@)
            } else {
                theme_registered_spec(content@)
            }
        },
{
    let words = crate::text::tokenize(content);
    if words.len() != 1 {
        return String::from_str("Themes ideas should only be a single word.");
    }
    let idea = String::from_str(content);
    let had_old = state.try_add_theme(user, idea);
    proof {
        assert(final(state).themes().dom() =~= old(state).themes().dom().insert(user));
    }
    match had_old {
        SubmissionResult::Done => {
            let mut m = String::new();
            m.append("Theme idea \"");
            m.append(content);
            m.append("\" registered, thanks!");
            proof {
                assert(m@ =~= theme_registered_spec(content@));
            }
            m
        },
        SubmissionResult::AlreadySubmitted { previous_submission } => {
            let mut m = String::new();
            m.append("You can only submit one idea.\nTheme idea \"");
            m.append(content);
            m.append("\" registered, replacing your previous submission \"");
            m.append(previous_submission.as_str());
            m.append("\".");
            proof {
                assert(m@ =~= theme_replaced_spec(content@, old(state).themes()[user]@));
            }
            m
        },
    }
}

pub open spec fn not_enough_ideas_message() -> Seq<char> {
    "Not enough ideas have been submitted yet."@
}

pub open spec fn theme_message_spec(a: Seq<char>, b: Seq<char>) -> Seq<char> {
    "The theme is: "@ + a + " "@ + b
}

/// Draws the theme: with fewer than two stored ideas, the fixed shortage
/// notice and no random draw; otherwise two distinct stored ideas, in an
/// order drawn independently of the selection.
pub fn do_theme_generation(ideas: &Vec<String>) -> (r: String)
    ensures
        ideas@.len() < 2 ==> r@ == not_enough_ideas_message(),
        ideas@.len() >= 2 ==> exists|i: int, j: int|
            #![trigger ideas@[i], ideas@[j]]
            0 <= i < ideas@.len() && 0 <= j < ideas@.len() && i != j && r@ == theme_message_spec(
                ideas@[i]@,
                ideas@[j]@,
            ),
{
    if ideas.len() < 2 {
        return String::from_str("Not enough ideas have been submitted yet.");
    }
    let mut rng = new_thread_rng();
    let picked = sample_two(&mut rng, ideas.len());
    let (a, b) = if random_flip() {
        (picked.1, picked.0)
    } else {
        (picked.0, picked.1)
    };
    let mut m = String::new();
    m.append("The theme is: ");
    m.append(ideas[a].as_str());
    m.append(" ");
    m.append(ideas[b].as_str());
    proof {
        assert(m@ =~= theme_message_spec(ideas@[a as int]@, ideas@[b as int]@));
    }
    m
}

/// Joins every stored idea with commas for the all-ideas listing.
pub fn format_all_ideas(ideas: &Vec<String>) -> (r: String)
    ensures
        r@ == comma_join(ideas.deep_view()),
{
    join_with_commas(ideas)
}

/// Wraps the joined ideas in the all-themes reply.
pub fn all_themes_reply(all_ideas: &str) -> (r: String)
    ensures
        r@ == "The theme ideas submitted are ```"@ + all_ideas@ + "```"@,
{
    let mut m = String::new();
    m.append("The theme ideas submitted are ```");
    m.append(all_ideas);
    m.append("```");
    proof {
        assert(m@ =~= "The theme ideas submitted are ```"@ + all_ideas@ + "```"@);
    }
    m
}

/// The reply refusing theme generation to a caller without the organizer
/// role.
pub fn generate_theme_permission_reply() -> (r: String)
    ensures
        r@ == "Since you lack the required role **"@ + roles::organizer_name()
            + "**, you do not have permission to generate themes."@,
{
    let mut m = String::new();
    m.append("Since you lack the required role **");
    m.append(roles::organizer());
    m.append("**, you do not have permission to generate themes.");
    proof {
        assert(m@ =~= "Since you lack the required role **"@ + roles::organizer_name()
            + "**, you do not have permission to generate themes."@);
    }
    m
}

/// The reply refusing the all-ideas listing to a caller without the
/// organizer role.
pub fn show_themes_permission_reply() -> (r: String)
    ensures
        r@ == "Since you lack the required role **"@ + roles::organizer_name()
            + "**, you do not have permission to see all the theme ideas."@,
{
    let mut m = String::new();
    m.append("Since you lack the required role **");
    m.append(roles::organizer());
    m.append("**, you do not have permission to see all the theme ideas.");
    proof {
        assert(m@ =~= "Since you lack the required role **"@ + roles::organizer_name()
            + "**, you do not have permission to see all the theme ideas."@);
    }
    m
}

} // verus!
