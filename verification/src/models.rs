//! The session data that the verified logic reads: players, scheduled
//! matches and their status, identified by plain integers.
use vstd::prelude::*;

verus! {

/// A player's number within a session.
pub type PlayerId = u32;

/// A match's number within a session.
pub type MatchId = u32;

/// A round's number within a session (rounds start at 1).
pub type RoundNumber = u32;

/// Whether a player still takes part in the session.
#[derive(Clone, Copy, Debug, PartialEq, Eq, Structural)]
pub enum PlayerStatus {
    Active,
    Inactive,
}

/// A player of the session.
#[derive(Clone, Debug)]
pub struct Player {
    pub id: PlayerId,
    pub name: String,
    pub status: PlayerStatus,
}

/// Where a scheduled match stands.
#[derive(Clone, Copy, Debug, PartialEq, Eq, Structural)]
pub enum MatchStatus {
    Scheduled,
    InProgress,
    Completed,
    Voided,
}

/// A match of a round: the field it is played on and the two teams.
#[derive(Clone, Debug)]
pub struct ScheduledMatch {
    pub id: MatchId,
    pub round: RoundNumber,
    pub field: u8,
    pub team_a: Vec<PlayerId>,
    pub team_b: Vec<PlayerId>,
    pub status: MatchStatus,
}

/// How match results are entered for a session.
#[derive(Clone, Copy, Debug, PartialEq, Eq, Structural)]
pub enum ScoreEntryMode {
    PointsPerPlayer,
    PointsPerTeam,
    WinDrawLose,
}

/// Whether a player took part in a match.
#[derive(Clone, Copy, Debug, PartialEq, Eq, Structural)]
pub enum ParticipationStatus {
    Played,
    DidNotPlay,
}

/// No two players share an id (the players of a session are keyed by id).
pub open spec fn distinct_player_ids(players: Seq<Player>) -> bool {
    forall|i: int, j: int| 0 <= i < j < players.len() ==> players[i].id != players[j].id
}

/// No two matches share an id (the matches of a session are keyed by id).
pub open spec fn distinct_match_ids(matches: Seq<ScheduledMatch>) -> bool {
    forall|i: int, j: int| 0 <= i < j < matches.len() ==> matches[i].id != matches[j].id
}

} // verus!
