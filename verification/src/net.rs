//! The wire event taxonomy the lobby and game server layer speaks.
//!
//! These are the plain data carried over the network: users, challenges,
//! games, and the events that move them. The transport and its
//! serialization live outside this crate; the types here are the payloads
//! the rules logic produces and consumes.

use crate::game::{Action, GameState};
use vstd::prelude::*;

verus! {

/// A connected user: an id and a display name.
#[derive(Clone, Debug)]
pub struct User {
    pub id: u32,
    pub name: String,
}

impl User {
    /// Builds a user.
    pub fn new(id: u32, name: String) -> (r: User)
        ensures
            r.id == id,
            r.name@ == name@,
    {
        User { id, name }
    }
}

/// A challenge between two users, open until accepted.
#[derive(Clone, Debug)]
pub struct ChallengeInfo {
    pub id: u32,
    pub source: User,
    pub target: User,
    pub accepted: bool,
}

impl ChallengeInfo {
    /// Builds a pending challenge.
    pub fn new(id: u32, source: User, target: User) -> (r: ChallengeInfo)
        ensures
            r.id == id,
            r.source == source,
            r.target == target,
            !r.accepted,
    {
        ChallengeInfo { id, source, target, accepted: false }
    }
}

/// A request to challenge another user.
#[derive(Clone, Copy, Debug)]
pub struct SendChallengeInfo {
    pub source: Option<u32>,
    pub target: u32,
}

/// A request to accept a pending challenge.
#[derive(Clone, Copy, Debug)]
pub struct AcceptChallengeInfo {
    pub id: u32,
    pub target: Option<u32>,
}

/// A running game: its id, the two players, and the authoritative state.
#[derive(Clone, Debug)]
pub struct GameInfo {
    pub id: u32,
    pub white: User,
    pub black: User,
    pub gamestate: GameState,
}

/// One message of the lobby and game protocol.
#[derive(Clone, Debug)]
pub enum Event {
    Handshake(String),
    SendChallenge(SendChallengeInfo),
    AcceptChallenge(AcceptChallengeInfo),
    ChallengeBroadcast(ChallengeInfo),
    LobbyUserBroadcast(u32, Vec<User>),
    GameBroadcast(GameInfo),
    GameAction(Action),
    Quit,
}

} // verus!
