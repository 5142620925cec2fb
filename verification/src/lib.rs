//! Logic of a game-jam community chat bot: command routing, team-channel
//! bookkeeping, theme-idea collection, role self-assignment, and the
//! persistent record that backs it all.
pub mod channel;
pub mod eula;
pub mod kvmap;
pub mod mention;
pub mod persist;
pub mod reaction;
pub mod role;
pub mod roles;
pub mod router;
pub mod state;
pub mod text;
pub mod theme;
