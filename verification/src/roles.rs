//! The fixed role names the bot knows: the two gatekeeping roles and the
//! self-assignable skill roles.
use vstd::prelude::*;

verus! {

pub open spec fn jammer_name() -> Seq<char> {
    "Jammer"@
}

pub fn jammer() -> (r: &'static str)
    ensures
        r@ == jammer_name(),
{
    "Jammer"
}

pub open spec fn organizer_name() -> Seq<char> {
    "Organizer"@
}

pub fn organizer() -> (r: &'static str)
    ensures
        r@ == organizer_name(),
{
    "Organizer"
}

/// The self-assignable skill roles, in the order the allow-list names
/// them.
pub open spec fn requestable_role_names() -> Seq<Seq<char>> {
    seq![
        "Programmer"@,
        "2D Artist"@,
        "3D Artist"@,
        "Sound Designer"@,
        "Musician"@,
        "Idea Guy"@,
        "Board Games"@,
        "Play Tester"@,
    ]
}

pub fn requestable_roles() -> (r: Vec<&'static str>)
    ensures
        r.deep_view() == requestable_role_names(),
{
    let v: Vec<&'static str> = vec![
        "Programmer",
        "2D Artist",
        "3D Artist",
        "Sound Designer",
        "Musician",
        "Idea Guy",
        "Board Games",
        "Play Tester",
    ];
    proof {
        assert(v.deep_view() =~= requestable_role_names());
    }
    v
}

} // verus!
