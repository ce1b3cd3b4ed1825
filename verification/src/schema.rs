//! The typed snapshot the bracket service returns from one poll: stages,
//! groups, rounds and matches, plus the tournament context. All fields are
//! plain values; times are epoch seconds and seeding ordinals are carried in
//! micro-units.

use vstd::prelude::*;

verus! {

/// A stable identifier the bracket service assigns.
pub type SendouId = u32;

/// Wire wrapper around one payload.
#[derive(Clone, Copy, Debug)]
pub struct DataWrapper<T> {
    pub data: T,
}

#[derive(Clone, Debug)]
pub struct TournamentRoot {
    pub tournament: Tournament,
}

#[derive(Clone, Debug)]
pub struct Tournament {
    pub data: TournamentData,
    pub context: TournamentContext,
}

/// The bracket structure of one snapshot.
#[derive(Clone, Debug)]
pub struct TournamentData {
    pub stages: Vec<TournamentStage>,
    pub groups: Vec<TournamentGroup>,
    pub rounds: Vec<TournamentRound>,
    pub matches: Vec<TournamentMatch>,
}

#[derive(Clone, Debug)]
pub struct TournamentStage {
    pub id: SendouId,
    pub name: String,
    pub number: u32,
    pub settings: TournamentStageSettings,
}

#[derive(Clone, Copy, PartialEq, Eq, Structural, Debug)]
pub enum TournamentStageSettings {
    SingleElimination,
    DoubleElimination,
    RoundRobin,
    Swiss { swiss: TournamentStageSwissSettings },
}

#[derive(Clone, Copy, PartialEq, Eq, Structural, Debug)]
pub struct TournamentStageSwissSettings {
    pub round_count: u32,
}

#[derive(Clone, Copy, PartialEq, Eq, Structural, Debug)]
pub struct TournamentGroup {
    pub id: SendouId,
    pub number: u32,
    pub stage_id: SendouId,
}

#[derive(Clone, Copy, PartialEq, Eq, Structural, Debug)]
pub struct TournamentRound {
    pub id: SendouId,
    pub group_id: SendouId,
    pub number: u32,
    pub stage_id: SendouId,
}

#[derive(Clone, Copy, PartialEq, Eq, Structural, Debug)]
pub struct TournamentMatch {
    pub id: SendouId,
    pub opponent1: Option<TournamentMatchOpponent>,
    pub opponent2: Option<TournamentMatchOpponent>,
    pub round_id: SendouId,
    pub status: TournamentMatchStatus,
}

#[derive(Clone, Copy, PartialEq, Eq, Structural, Debug)]
pub struct TournamentMatchOpponent {
    pub id: Option<SendouId>,
    pub result: Option<TournamentMatchResult>,
}

#[derive(Clone, Copy, PartialEq, Eq, Structural, Debug)]
pub enum TournamentMatchResult {
    Win,
    Loss,
}

/// Lifecycle of a match, in the order the bracket service advances it.
#[derive(Clone, Copy, PartialEq, Eq, Structural, Debug)]
pub enum TournamentMatchStatus {
    Locked,
    Waiting,
    Ready,
    Running,
    Completed,
}

impl TournamentMatchStatus {
    /// The numeric code the bracket service sends for this status.
    pub open spec fn spec_code(self) -> u8 {
        match self {
            TournamentMatchStatus::Locked => 0,
            TournamentMatchStatus::Waiting => 1,
            TournamentMatchStatus::Ready => 2,
            TournamentMatchStatus::Running => 3,
            TournamentMatchStatus::Completed => 4,
        }
    }

    pub fn code(&self) -> (r: u8)
        ensures
            r == self.spec_code(),
    {
        match self {
            TournamentMatchStatus::Locked => 0,
            TournamentMatchStatus::Waiting => 1,
            TournamentMatchStatus::Ready => 2,
            TournamentMatchStatus::Running => 3,
            TournamentMatchStatus::Completed => 4,
        }
    }

    /// The status for a numeric wire code, inverse of `code`.
    pub fn from_code(code: u8) -> (r: Option<TournamentMatchStatus>)
        ensures
            match r {
                Some(s) => s.spec_code() == code,
                None => code > 4,
            },
    {
        match code {
            0 => Some(TournamentMatchStatus::Locked),
            1 => Some(TournamentMatchStatus::Waiting),
            2 => Some(TournamentMatchStatus::Ready),
            3 => Some(TournamentMatchStatus::Running),
            4 => Some(TournamentMatchStatus::Completed),
            _ => None,
        }
    }
}

impl TournamentMatch {
    /// A bye: scheduled and ready, but with only one opponent present.
    pub open spec fn spec_is_bye(self) -> bool {
        self.status == TournamentMatchStatus::Ready && (self.opponent1 is None
            || self.opponent2 is None)
    }

    pub fn is_bye(&self) -> (r: bool)
        ensures
            r == self.spec_is_bye(),
    {
        self.status == TournamentMatchStatus::Ready && (self.opponent1.is_none()
            || self.opponent2.is_none())
    }
}

/// Tournament metadata that never changes during a run.
#[derive(Clone, Debug)]
pub struct TournamentContext {
    pub id: SendouId,
    pub name: String,
    /// Scheduled start, in seconds since the Unix epoch.
    pub start_time: i64,
    pub is_finalized: bool,
    pub teams: Vec<TournamentTeam>,
}

#[derive(Clone, Debug)]
pub struct TournamentTeam {
    pub id: SendouId,
    pub name: String,
    pub members: Vec<TournamentTeamMember>,
    pub check_ins: Vec<TournamentTeamCheckIn>,
    /// Average seeding skill ordinal, in micro-units.
    pub avg_seeding_skill_ordinal: i64,
}

#[derive(Clone, Debug)]
pub struct TournamentTeamMember {
    pub user_id: SendouId,
    pub username: String,
    pub discord_id: u64,
    pub country: Option<String>,
}

/// A check-in record; only its presence carries information.
#[derive(Clone, Copy, Debug)]
pub struct TournamentTeamCheckIn {}

#[derive(Clone, Debug)]
pub struct MatchRoot {
    pub results: Vec<MatchResult>,
}

#[derive(Clone, Copy, PartialEq, Eq, Structural, Debug)]
pub struct MatchResult {
    pub winner_team_id: SendouId,
}

#[derive(Clone, Debug)]
pub struct ToMatchResponse {
    pub to_match: DataWrapper<MatchRoot>,
}

#[derive(Clone, Debug)]
pub struct SendouUserRoot {
    pub user: SendouUser,
}

#[derive(Clone, Debug)]
pub struct SendouUser {
    pub id: SendouId,
    pub username: String,
}

/// Payload wrapper of the turbo-streamed user lookup endpoint.
#[derive(Clone, Debug)]
pub struct TurboStreamed<T>(pub T);

} // verus!
