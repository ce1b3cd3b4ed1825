//! The match reconciler: replays the full match list of a bracket snapshot
//! over the baseline rating table, exactly as the poll loop does every cycle.
//!
//! The pairwise rating update is an external collaborator (spec: a pure
//! function of the two ratings and the outcome). The verified replay takes
//! each update result as a plain value: `run_replay_cycle` receives the
//! rating function as a parameter and its contract ties the run, through an
//! update sequence, to the mathematical fold `replay_seq`. Everything the
//! replay decides — which matches are skipped, replayed, deduplicated, which
//! delta events exist — is stated by the fold, whatever the updates are.

use vstd::prelude::*;
use crate::db::{
    index_of_key, seq_contains_key, PlayerId, SwitzerlandPlayer, SwitzerlandPlayerMap,
};
use crate::idset::IdSet;
use crate::lang::Language;
use crate::rank_map::{
    index_of_rank_key, indexed_rating_of_key, rank_of_key, rank_seq_contains, RankMap,
};
use crate::rank_vec::{count_gt, RankVec};
use crate::rating::Rating;
use crate::schema::{
    SendouId, TournamentMatch, TournamentMatchOpponent, TournamentMatchResult,
    TournamentMatchStatus,
};

verus! {

/// Why a replay had to stop: each case is a broken programming invariant
/// (spec: fatal, the process must abort rather than persist corrupt state).
#[derive(Clone, Copy, PartialEq, Eq, Structural, Debug)]
pub enum ReplayFault {
    /// A scheduled match carries no resolvable opponent entry.
    MissingOpponent,
    /// A match names a team the roster does not know.
    UnknownTeam,
    /// The roster names a player the rating table does not hold.
    UnknownPlayer,
    /// A tournament player has no language recorded.
    MissingLanguage,
    /// A completed match carries no outcome.
    MissingResult,
    /// The entity has no tracked indexed rating, or the tracked rating is
    /// not in the rank index.
    RankIndexMiss,
}

/// Map from the bracket's team id to the player identity playing for it.
#[derive(Debug)]
pub struct Roster {
    entries: Vec<(SendouId, PlayerId)>,
}

/// First position of a team id in a roster sequence, or the length.
pub open spec fn index_of_team(s: Seq<(SendouId, PlayerId)>, team: SendouId) -> int
    decreases s.len(),
{
    if s.len() == 0 {
        0
    } else if s[0].0 == team {
        0
    } else {
        1 + index_of_team(s.subrange(1, s.len() as int), team)
    }
}

pub open spec fn roster_contains(s: Seq<(SendouId, PlayerId)>, team: SendouId) -> bool {
    exists|i: int| 0 <= i < s.len() && s[i].0 == team
}

pub open spec fn unique_teams(s: Seq<(SendouId, PlayerId)>) -> bool {
    forall|i: int, j: int| 0 <= i < j < s.len() ==> s[i].0 != s[j].0
}

pub proof fn lemma_index_of_team_bounds(s: Seq<(SendouId, PlayerId)>, team: SendouId)
    ensures
        0 <= index_of_team(s, team) <= s.len(),
        index_of_team(s, team) < s.len() ==> s[index_of_team(s, team)].0 == team
            && roster_contains(s, team),
    decreases s.len(),
{
    if s.len() > 0 && s[0].0 != team {
        lemma_index_of_team_bounds(s.subrange(1, s.len() as int), team);
    }
}

pub proof fn lemma_index_of_team_first(s: Seq<(SendouId, PlayerId)>, team: SendouId, i: int)
    requires
        0 <= i <= s.len(),
        forall|j: int| 0 <= j < i ==> s[j].0 != team,
        i < s.len() ==> s[i].0 == team,
    ensures
        index_of_team(s, team) == if i < s.len() {
            i
        } else {
            s.len() as int
        },
    decreases s.len(),
{
    if s.len() > 0 {
        if i == 0 {
        } else {
            let t = s.subrange(1, s.len() as int);
            assert(forall|j: int| 0 <= j < i - 1 ==> t[j].0 != team);
            lemma_index_of_team_first(t, team, i - 1);
        }
    }
}

impl Roster {
    pub closed spec fn view(self) -> Seq<(SendouId, PlayerId)> {
        self.entries@
    }

    pub open spec fn wf(self) -> bool {
        unique_teams(self@)
    }

    pub fn new() -> (r: Self)
        ensures
            r@ == Seq::<(SendouId, PlayerId)>::empty(),
            r.wf(),
    {
        let r = Roster { entries: Vec::new() };
        proof {
            assert(r@ =~= Seq::<(SendouId, PlayerId)>::empty());
        }
        r
    }

    /// Registers the player entering for a team. A team already present
    /// keeps its first assignment.
    pub fn add_team(&mut self, team: SendouId, player: PlayerId)
        requires
            old(self).wf(),
        ensures
            final(self).wf(),
            roster_contains(old(self)@, team) ==> final(self)@ == old(self)@,
            !roster_contains(old(self)@, team) ==> final(self)@ == old(self)@.push(
                (team, player),
            ),
    {
        match self.find_index(team) {
            Some(_) => {
            },
            None => {
                self.entries.push((team, player));
                proof {
                    let s = old(self)@;
                    let t = final(self)@;
                    assert(forall|a: int| 0 <= a < s.len() ==> t[a] == s[a]);
                    assert(final(self).wf());
                }
            },
        }
    }

    fn find_index(&self, team: SendouId) -> (r: Option<usize>)
        ensures
            match r {
                Some(i) => i == index_of_team(self@, team) && i < self@.len()
                    && self@[i as int].0 == team,
                None => !roster_contains(self@, team),
            },
    {
        let n = self.entries.len();
        for i in 0..n
            invariant
                n == self@.len(),
                forall|j: int| 0 <= j < i ==> self@[j].0 != team,
        {
            if self.entries[i].0 == team {
                proof {
                    lemma_index_of_team_first(self@, team, i as int);
                }
                return Some(i);
            }
        }
        None
    }

    /// The player registered for a team, if any.
    pub fn player_for(&self, team: SendouId) -> (r: Option<&PlayerId>)
        ensures
            match r {
                Some(p) => roster_contains(self@, team) && *p == self@[index_of_team(
                    self@,
                    team,
                )].1,
                None => !roster_contains(self@, team),
            },
    {
        match self.find_index(team) {
            Some(i) => Some(&self.entries[i].1),
            None => None,
        }
    }

    pub fn len(&self) -> (n: usize)
        ensures
            n == self@.len(),
    {
        self.entries.len()
    }

    pub fn index(&self, i: usize) -> (r: &(SendouId, PlayerId))
        requires
            i < self@.len(),
        ensures
            *r == self@[i as int],
    {
        &self.entries[i]
    }
}

/// The swiss rounds of the snapshot, ordered by round number, and the
/// announced total round count.
#[derive(Debug)]
pub struct SwissRounds {
    pub rounds: Vec<(SendouId, u32)>,
    pub round_count: u32,
}

/// The round number recorded for a round id, if the id is a swiss round.
pub open spec fn round_number(s: Seq<(SendouId, u32)>, round_id: SendouId) -> Option<u32>
    decreases s.len(),
{
    if s.len() == 0 {
        None
    } else if s[0].0 == round_id {
        Some(s[0].1)
    } else {
        round_number(s.subrange(1, s.len() as int), round_id)
    }
}

impl SwissRounds {
    /// The swiss round number a match belongs to, used only for the
    /// "N of M rounds" progress display.
    pub fn calc_round(&self, round_id: SendouId) -> (r: Option<u32>)
        ensures
            r == round_number(self.rounds@, round_id),
    {
        let n = self.rounds.len();
        proof {
            assert(self.rounds@.subrange(0, n as int) =~= self.rounds@);
        }
        for i in 0..n
            invariant
                n == self.rounds@.len(),
                forall|j: int| 0 <= j < i ==> self.rounds@[j].0 != round_id,
                round_number(self.rounds@, round_id) == round_number(
                    self.rounds@.subrange(i as int, n as int),
                    round_id,
                ),
        {
            proof {
                assert(self.rounds@.subrange(i as int, n as int).subrange(
                    1,
                    (n - i) as int,
                ) =~= self.rounds@.subrange(i + 1, n as int));
            }
            if self.rounds[i].0 == round_id {
                return Some(self.rounds[i].1);
            }
        }
        None
    }
}

/// One entity's change from one processed match: created once, consumed once
/// by the notification dispatcher.
#[derive(Debug)]
pub struct DeltaEvent {
    /// Whose rating this is about.
    pub player: PlayerId,
    pub match_id: SendouId,
    /// The team the player entered as (the notification channel key).
    pub team: SendouId,
    /// The other side's team, absent for a bye.
    pub opponent_team: Option<SendouId>,
    /// The player's outcome as the bracket reported it.
    pub result: Option<TournamentMatchResult>,
    /// Which swiss round the match belongs to, for progress display.
    pub calc_round: Option<u32>,
    pub old_rating: Rating,
    pub new_rating: Rating,
    /// 1-based rank before the match; absent for a first-ever appearance.
    pub old_rank: Option<usize>,
    /// 1-based rank after the match; for a bye, the old rank or zero when
    /// none was known.
    pub new_rank: usize,
    /// The language the player is addressed in.
    pub language: Language,
    pub bye: bool,
}

/// The replay's whole mutable state, as mathematical values: the working
/// table, the processed-match set, the rank index contents (descending) and
/// the last-known ranks.
pub struct ReplayState {
    pub table: Seq<SwitzerlandPlayer>,
    pub processed: Set<SendouId>,
    pub ranks: Seq<i64>,
    pub last_ranks: Seq<(PlayerId, usize, Rating)>,
}

/// Everything of one replay that stays fixed during a cycle.
pub struct ReplayCfg {
    pub roster: Seq<(SendouId, PlayerId)>,
    pub excluded: Set<SendouId>,
    pub rounds: Seq<(SendouId, u32)>,
}

/// One side of a match, resolved against roster and table.
pub struct SideInfo {
    pub team: SendouId,
    pub player: PlayerId,
    pub index: int,
    pub rating: Rating,
    pub language: Language,
    pub result: Option<TournamentMatchResult>,
}

/// Resolves one opponent entry to the entity playing: the team it names,
/// the player registered for that team, and that player's table entry.
pub open spec fn spec_resolve(
    roster: Seq<(SendouId, PlayerId)>,
    table: Seq<SwitzerlandPlayer>,
    opp: Option<TournamentMatchOpponent>,
) -> Result<SideInfo, ReplayFault> {
    match opp {
        None => Err(ReplayFault::MissingOpponent),
        Some(o) => match o.id {
            None => Err(ReplayFault::MissingOpponent),
            Some(team) => if !roster_contains(roster, team) {
                Err(ReplayFault::UnknownTeam)
            } else {
                let player = roster[index_of_team(roster, team)].1;
                if !seq_contains_key(table, player.key()) {
                    Err(ReplayFault::UnknownPlayer)
                } else {
                    let i = index_of_key(table, player.key());
                    match table[i].language {
                        None => Err(ReplayFault::MissingLanguage),
                        Some(language) => Ok(
                            SideInfo {
                                team,
                                player,
                                index: i,
                                rating: table[i].rating,
                                language,
                                result: o.result,
                            },
                        ),
                    }
                }
            },
        },
    }
}

/// Writes one side's new rating into the working table; when the match is
/// newly processed, also withdraws the entity's currently-indexed rating
/// from the rank index, stores the new one, refreshes the last-known rank
/// and tracked rating, and emits the side's delta event. Returns the new
/// table, rank index contents, rank records and events.
pub open spec fn spec_side_update(
    table: Seq<SwitzerlandPlayer>,
    ranks: Seq<i64>,
    last_ranks: Seq<(PlayerId, usize, Rating)>,
    match_id: SendouId,
    calc_round: Option<u32>,
    side: SideInfo,
    other_team: SendouId,
    new_rating: Rating,
    is_new: bool,
) -> Result<
    (Seq<SwitzerlandPlayer>, Seq<i64>, Seq<(PlayerId, usize, Rating)>, Seq<DeltaEvent>),
    ReplayFault,
> {
    let old_p = table[side.index];
    let new_p = SwitzerlandPlayer { rating: new_rating, unrated: false, ..old_p };
    let table1 = table.update(side.index, new_p);
    if !is_new {
        Ok((table1, ranks, last_ranks, Seq::empty()))
    } else if !(indexed_rating_of_key(last_ranks, side.player.key()) matches Some(ir)
        && ranks.contains(ir.value)) {
        Err(ReplayFault::RankIndexMiss)
    } else {
        let ir = indexed_rating_of_key(last_ranks, side.player.key()).unwrap();
        let ranks1 = ranks.remove(count_gt(ranks, ir.value));
        let rank0 = count_gt(ranks1, new_rating.value);
        let ranks2 = ranks1.insert(rank0, new_rating.value);
        let new_rank = (rank0 + 1) as usize;
        let old_rank = rank_of_key(last_ranks, side.player.key());
        let last1 = if rank_seq_contains(last_ranks, side.player.key()) {
            last_ranks.update(
                index_of_rank_key(last_ranks, side.player.key()),
                (side.player, new_rank, new_rating),
            )
        } else {
            last_ranks.push((side.player, new_rank, new_rating))
        };
        let event = DeltaEvent {
            player: side.player,
            match_id,
            team: side.team,
            opponent_team: Some(other_team),
            result: side.result,
            calc_round,
            old_rating: old_p.rating,
            new_rating,
            old_rank,
            new_rank,
            language: side.language,
            bye: false,
        };
        Ok((table1, ranks2, last1, seq![event]))
    }
}

/// How the replay treats one match of the snapshot, in the order the
/// reconciler checks: exclusion, bye, regression below completed, completed.
pub open spec fn spec_replay_step(
    cfg: ReplayCfg,
    st: ReplayState,
    m: TournamentMatch,
    upd: (Rating, Rating),
) -> Result<(ReplayState, Seq<DeltaEvent>), ReplayFault> {
    if cfg.excluded.contains(m.id) {
        Ok((st, Seq::empty()))
    } else if m.spec_is_bye() {
        if st.processed.contains(m.id) {
            Ok((st, Seq::empty()))
        } else {
            let opp = if m.opponent1 is Some {
                m.opponent1
            } else {
                m.opponent2
            };
            match spec_resolve(cfg.roster, st.table, opp) {
                Err(f) => Err(f),
                Ok(side) => {
                    let old_rank = rank_of_key(st.last_ranks, side.player.key());
                    let new_rank = match old_rank {
                        Some(r) => r,
                        None => 0,
                    };
                    let event = DeltaEvent {
                        player: side.player,
                        match_id: m.id,
                        team: side.team,
                        opponent_team: None,
                        result: side.result,
                        calc_round: round_number(cfg.rounds, m.round_id),
                        old_rating: side.rating,
                        new_rating: side.rating,
                        old_rank,
                        new_rank,
                        language: side.language,
                        bye: true,
                    };
                    Ok(
                        (
                            ReplayState { processed: st.processed.insert(m.id), ..st },
                            seq![event],
                        ),
                    )
                },
            }
        }
    } else if m.status != TournamentMatchStatus::Completed {
        Ok((ReplayState { processed: st.processed.remove(m.id), ..st }, Seq::empty()))
    } else {
        let is_new = !st.processed.contains(m.id);
        let st1 = ReplayState { processed: st.processed.insert(m.id), ..st };
        match spec_resolve(cfg.roster, st1.table, m.opponent1) {
            Err(f) => Err(f),
            Ok(s1) => match spec_resolve(cfg.roster, st1.table, m.opponent2) {
                Err(f) => Err(f),
                Ok(s2) => if s1.result is None {
                    Err(ReplayFault::MissingResult)
                } else {
                    let calc_round = round_number(cfg.rounds, m.round_id);
                    match spec_side_update(
                        st1.table,
                        st1.ranks,
                        st1.last_ranks,
                        m.id,
                        calc_round,
                        s1,
                        s2.team,
                        upd.0,
                        is_new,
                    ) {
                        Err(f) => Err(f),
                        Ok((t2, r2, l2, ev1)) => match spec_side_update(
                            t2,
                            r2,
                            l2,
                            m.id,
                            calc_round,
                            s2,
                            s1.team,
                            upd.1,
                            is_new,
                        ) {
                            Err(f) => Err(f),
                            Ok((t3, r3, l3, ev2)) => Ok(
                                (
                                    ReplayState {
                                        table: t3,
                                        processed: st1.processed,
                                        ranks: r3,
                                        last_ranks: l3,
                                    },
                                    ev1 + ev2,
                                ),
                            ),
                        },
                    }
                },
            },
        }
    }
}

/// Whether replaying a match calls the rating model.
pub open spec fn consumes_update(cfg: ReplayCfg, m: TournamentMatch) -> bool {
    !cfg.excluded.contains(m.id) && !m.spec_is_bye() && m.status
        == TournamentMatchStatus::Completed
}

/// How many rating-model results a match sequence consumes.
pub open spec fn updates_needed(cfg: ReplayCfg, ms: Seq<TournamentMatch>) -> int
    decreases ms.len(),
{
    if ms.len() == 0 {
        0
    } else {
        (if consumes_update(cfg, ms[0]) {
            1int
        } else {
            0int
        }) + updates_needed(cfg, ms.subrange(1, ms.len() as int))
    }
}

/// The update fed to a step that consumes none, and the fallback when the
/// update sequence is exhausted; a well-formed run never reads it.
pub open spec fn placeholder_update() -> (Rating, Rating) {
    (Rating::default_rating(), Rating::default_rating())
}

pub open spec fn first_update(ups: Seq<(Rating, Rating)>) -> (Rating, Rating) {
    if ups.len() > 0 {
        ups[0]
    } else {
        placeholder_update()
    }
}

/// The full replay of a match sequence: the fold of `spec_replay_step`,
/// consuming one update per completed, non-excluded match.
pub open spec fn replay_seq(
    cfg: ReplayCfg,
    st: ReplayState,
    ms: Seq<TournamentMatch>,
    ups: Seq<(Rating, Rating)>,
) -> Result<(ReplayState, Seq<DeltaEvent>), ReplayFault>
    decreases ms.len(),
{
    if ms.len() == 0 {
        Ok((st, Seq::empty()))
    } else {
        let m = ms[0];
        let consumed = consumes_update(cfg, m);
        let upd = if consumed {
            first_update(ups)
        } else {
            placeholder_update()
        };
        match spec_replay_step(cfg, st, m, upd) {
            Err(f) => Err(f),
            Ok((st1, evs)) => {
                let rest_ups = if consumed {
                    ups.subrange(1, ups.len() as int)
                } else {
                    ups
                };
                match replay_seq(cfg, st1, ms.subrange(1, ms.len() as int), rest_ups) {
                    Err(f) => Err(f),
                    Ok((st2, evs2)) => Ok((st2, evs + evs2)),
                }
            },
        }
    }
}

/// Extending a replay by one match at the end: run the prefix, then step.
#[verifier::rlimit(100)]
pub proof fn lemma_replay_snoc(
    cfg: ReplayCfg,
    st: ReplayState,
    ms: Seq<TournamentMatch>,
    m: TournamentMatch,
    ups: Seq<(Rating, Rating)>,
    u: Seq<(Rating, Rating)>,
)
    requires
        ups.len() == updates_needed(cfg, ms),
        u.len() == if consumes_update(cfg, m) {
            1int
        } else {
            0int
        },
    ensures
        replay_seq(cfg, st, ms.push(m), ups + u) == match replay_seq(cfg, st, ms, ups) {
            Err(f) => Err::<(ReplayState, Seq<DeltaEvent>), ReplayFault>(f),
            Ok((st1, evs)) => match spec_replay_step(
                cfg,
                st1,
                m,
                if consumes_update(cfg, m) {
                    first_update(u)
                } else {
                    placeholder_update()
                },
            ) {
                Err(f) => Err(f),
                Ok((st2, evs2)) => Ok((st2, evs + evs2)),
            },
        },
    decreases ms.len(),
{
    lemma_updates_needed_nonneg(cfg, ms);
    if ms.len() == 0 {
        let one = ms.push(m);
        assert(one[0] == m);
        assert(one.subrange(1, 1) =~= Seq::<TournamentMatch>::empty());
        assert(ups + u =~= u);
        let upd = if consumes_update(cfg, m) {
            first_update(u)
        } else {
            placeholder_update()
        };
        assert(first_update(ups + u) == first_update(u));
        assert(replay_seq(cfg, st, ms, ups) == Ok::<(ReplayState, Seq<DeltaEvent>), ReplayFault>(
            (st, Seq::empty()),
        ));
        match spec_replay_step(cfg, st, m, upd) {
            Err(f) => {
                assert(replay_seq(cfg, st, one, ups + u) == Err::<
                    (ReplayState, Seq<DeltaEvent>),
                    ReplayFault,
                >(f));
            },
            Ok((st2, evs2)) => {
                assert(Seq::<DeltaEvent>::empty() + evs2 =~= evs2);
                assert(evs2 + Seq::<DeltaEvent>::empty() =~= evs2);
                assert(replay_seq(cfg, st2, one.subrange(1, 1), (ups + u).subrange(1, (ups
                    + u).len() as int)) == Ok::<(ReplayState, Seq<DeltaEvent>), ReplayFault>(
                    (st2, Seq::empty()),
                ));
                assert(replay_seq(cfg, st2, one.subrange(1, 1), ups + u) == Ok::<
                    (ReplayState, Seq<DeltaEvent>),
                    ReplayFault,
                >((st2, Seq::empty())));
                assert(replay_seq(cfg, st, one, ups + u) == Ok::<
                    (ReplayState, Seq<DeltaEvent>),
                    ReplayFault,
                >((st2, evs2)));
            },
        }
    } else {
        let ms1 = ms.subrange(1, ms.len() as int);
        let snoc = ms.push(m);
        assert(snoc[0] == ms[0]);
        assert(snoc.subrange(1, snoc.len() as int) =~= ms1.push(m));
        let c0 = consumes_update(cfg, ms[0]);
        lemma_updates_needed_nonneg(cfg, ms1);
        let upd0 = if c0 {
            first_update(ups)
        } else {
            placeholder_update()
        };
        if c0 {
            assert(ups.len() >= 1);
            assert(first_update(ups + u) == first_update(ups));
        }
        assert((if c0 {
            first_update(ups + u)
        } else {
            placeholder_update()
        }) == upd0);
        match spec_replay_step(cfg, st, ms[0], upd0) {
            Err(_) => {},
            Ok((sta, evs0)) => {
                let ups1 = if c0 {
                    ups.subrange(1, ups.len() as int)
                } else {
                    ups
                };
                if c0 {
                    assert((ups + u).subrange(1, (ups + u).len() as int) =~= ups1 + u);
                }
                lemma_replay_snoc(cfg, sta, ms1, m, ups1, u);
                match replay_seq(cfg, sta, ms1, ups1) {
                    Err(_) => {},
                    Ok((stb, evsr)) => {
                        let updm = if consumes_update(cfg, m) {
                            first_update(u)
                        } else {
                            placeholder_update()
                        };
                        match spec_replay_step(cfg, stb, m, updm) {
                            Err(_) => {},
                            Ok((stc, evsm)) => {
                                assert(evs0 + (evsr + evsm) =~= (evs0 + evsr) + evsm);
                            },
                        }
                    },
                }
            },
        }
    }
}

pub proof fn lemma_updates_needed_nonneg(cfg: ReplayCfg, ms: Seq<TournamentMatch>)
    ensures
        0 <= updates_needed(cfg, ms) <= ms.len(),
    decreases ms.len(),
{
    if ms.len() > 0 {
        lemma_updates_needed_nonneg(cfg, ms.subrange(1, ms.len() as int));
    }
}

/// One side of a match as the executable reconciler resolves it.
pub struct ResolvedSide {
    pub team: SendouId,
    pub player: PlayerId,
    pub index: usize,
    pub rating: Rating,
    pub language: Language,
    pub result: Option<TournamentMatchResult>,
}

impl ResolvedSide {
    pub open spec fn side(self) -> SideInfo {
        SideInfo {
            team: self.team,
            player: self.player,
            index: self.index as int,
            rating: self.rating,
            language: self.language,
            result: self.result,
        }
    }
}

/// Resolves one opponent entry against the roster and the working table,
/// exactly as `spec_resolve` describes.
fn resolve_side(
    roster: &Roster,
    table: &SwitzerlandPlayerMap,
    opp: &Option<TournamentMatchOpponent>,
) -> (r: Result<ResolvedSide, ReplayFault>)
    ensures
        match r {
            Ok(side) => spec_resolve(roster@, table@, *opp) == Ok::<SideInfo, ReplayFault>(
                side.side(),
            ) && side.index < table@.len(),
            Err(f) => spec_resolve(roster@, table@, *opp) == Err::<SideInfo, ReplayFault>(f),
        },
{
    let o = match opp {
        None => {
            return Err(ReplayFault::MissingOpponent);
        },
        Some(o) => o,
    };
    let team = match o.id {
        None => {
            return Err(ReplayFault::MissingOpponent);
        },
        Some(team) => team,
    };
    let player = match roster.player_for(team) {
        None => {
            return Err(ReplayFault::UnknownTeam);
        },
        Some(p) => p.clone(),
    };
    let index = match table.find(&player) {
        None => {
            proof {
                lemma_index_of_team_bounds(roster@, team);
            }
            return Err(ReplayFault::UnknownPlayer);
        },
        Some(i) => i,
    };
    let entry = table.index(index);
    let language = match entry.language {
        None => {
            return Err(ReplayFault::MissingLanguage);
        },
        Some(l) => l,
    };
    Ok(ResolvedSide { team, player, index, rating: entry.rating, language, result: o.result })
}

/// Applies one side of a completed match to the working table, the rank
/// index and the last-known ranks, as `spec_side_update` describes; hands
/// back the side's delta event when the match is newly processed.
fn exec_side_update(
    working: &mut SwitzerlandPlayerMap,
    ranks: &mut RankVec,
    last_ranks: &mut RankMap,
    match_id: SendouId,
    calc_round: Option<u32>,
    side: &ResolvedSide,
    other_team: SendouId,
    new_rating: Rating,
    is_new: bool,
) -> (r: Result<Option<DeltaEvent>, ReplayFault>)
    requires
        old(working).wf(),
        old(ranks).wf(),
        old(last_ranks).wf(),
        side.index < old(working)@.len(),
    ensures
        final(working).wf(),
        final(ranks).wf(),
        final(last_ranks).wf(),
        final(working)@.len() == old(working)@.len(),
        ({
            let spec_r = spec_side_update(
                old(working)@,
                old(ranks)@,
                old(last_ranks)@,
                match_id,
                calc_round,
                side.side(),
                other_team,
                new_rating,
                is_new,
            );
            match r {
                Ok(None) => spec_r == Ok::<_, ReplayFault>(
                    (final(working)@, final(ranks)@, final(last_ranks)@, Seq::<DeltaEvent>::empty()),
                ),
                Ok(Some(e)) => spec_r == Ok::<_, ReplayFault>(
                    (final(working)@, final(ranks)@, final(last_ranks)@, seq![e]),
                ),
                Err(f) => {
                    &&& spec_r matches Err(g) && g == f
                    &&& final(working)@ == old(working)@
                    &&& final(ranks)@ == old(ranks)@
                    &&& final(last_ranks)@ == old(last_ranks)@
                },
            }
        }),
{
    let cur = working.index(side.index).clone();
    let indexed: Option<Rating> = if is_new {
        match last_ranks.indexed_rating(&side.player) {
            None => {
                return Err(ReplayFault::RankIndexMiss);
            },
            Some(ir) => {
                if !ranks.contains(ir) {
                    return Err(ReplayFault::RankIndexMiss);
                }
                Some(ir)
            },
        }
    } else {
        None
    };
    let old_rating = cur.rating;
    let new_p = SwitzerlandPlayer {
        id: cur.id,
        display_name: cur.display_name,
        language: cur.language,
        rank: cur.rank,
        rating: new_rating,
        unrated: false,
    };
    working.set_at(side.index, new_p);
    if !is_new {
        return Ok(None);
    }
    let ir = match indexed {
        Some(ir) => ir,
        None => {
            proof {
                assert(false);
            }
            new_rating
        },
    };
    let pre_len = ranks.len();
    let _removed_rank = ranks.get_rank_and_remove(ir);
    proof {
        crate::rank_vec::lemma_count_gt_bounds(ranks@, new_rating.value);
    }
    let rank0 = ranks.insert_and_get_rank(new_rating);
    proof {
        assert(rank0 < pre_len);
    }
    let new_rank = rank0 + 1;
    let old_rank = last_ranks.insert(side.player.clone(), new_rank, new_rating);
    let event = DeltaEvent {
        player: side.player.clone(),
        match_id,
        team: side.team,
        opponent_team: Some(other_team),
        result: side.result,
        calc_round,
        old_rating,
        new_rating,
        old_rank,
        new_rank,
        language: side.language,
        bye: false,
    };
    Ok(Some(event))
}

/// The arguments the replay hands the rating model when it steps a match:
/// the two current ratings and whether the first opponent won. `None` when
/// the step faults before the model is consulted (or consumes no update).
pub open spec fn step_rate_inputs(cfg: ReplayCfg, st: ReplayState, m: TournamentMatch) -> Option<
    (Rating, Rating, bool),
> {
    if !consumes_update(cfg, m) {
        None
    } else {
        let st1 = ReplayState { processed: st.processed.insert(m.id), ..st };
        match spec_resolve(cfg.roster, st1.table, m.opponent1) {
            Err(_) => None,
            Ok(s1) => match spec_resolve(cfg.roster, st1.table, m.opponent2) {
                Err(_) => None,
                Ok(s2) => match s1.result {
                    None => None,
                    Some(res) => Some(
                        (s1.rating, s2.rating, res == TournamentMatchResult::Win),
                    ),
                },
            },
        }
    }
}

/// Every update the replay consumes is a possible result of the rating
/// model on exactly the ratings and outcome the replay presents at that
/// step. This is what ties a replay's update sequence to the `rate`
/// collaborator: a pure model admits one result per input, so under this
/// predicate the fold's tables and events are the model's.
pub open spec fn updates_follow_model<F: Fn(Rating, Rating, bool) -> (Rating, Rating)>(
    cfg: ReplayCfg,
    st: ReplayState,
    ms: Seq<TournamentMatch>,
    ups: Seq<(Rating, Rating)>,
    rate: F,
) -> bool
    decreases ms.len(),
{
    if ms.len() == 0 {
        true
    } else {
        let m = ms[0];
        let consumed = consumes_update(cfg, m);
        let upd = if consumed {
            first_update(ups)
        } else {
            placeholder_update()
        };
        let this_ok = if consumed {
            match step_rate_inputs(cfg, st, m) {
                Some(args) => call_ensures(rate, args, upd),
                None => true,
            }
        } else {
            true
        };
        this_ok && match spec_replay_step(cfg, st, m, upd) {
            Err(_) => true,
            Ok((st1, _)) => {
                let rest_ups = if consumed {
                    ups.subrange(1, ups.len() as int)
                } else {
                    ups
                };
                updates_follow_model(cfg, st1, ms.subrange(1, ms.len() as int), rest_ups, rate)
            },
        }
    }
}

/// Extending a followed update sequence by one step keeps it followed, when
/// the step's own update is a possible model result for that step.
pub proof fn lemma_follow_model_snoc<F: Fn(Rating, Rating, bool) -> (Rating, Rating)>(
    cfg: ReplayCfg,
    st: ReplayState,
    ms: Seq<TournamentMatch>,
    m: TournamentMatch,
    ups: Seq<(Rating, Rating)>,
    u: Seq<(Rating, Rating)>,
    rate: F,
)
    requires
        ups.len() == updates_needed(cfg, ms),
        u.len() == if consumes_update(cfg, m) {
            1int
        } else {
            0int
        },
        updates_follow_model(cfg, st, ms, ups, rate),
        consumes_update(cfg, m) ==> match replay_seq(cfg, st, ms, ups) {
            Ok((st1, _)) => match step_rate_inputs(cfg, st1, m) {
                Some(args) => call_ensures(rate, args, first_update(u)),
                None => true,
            },
            Err(_) => true,
        },
    ensures
        updates_follow_model(cfg, st, ms.push(m), ups + u, rate),
    decreases ms.len(),
{
    lemma_updates_needed_nonneg(cfg, ms);
    if ms.len() == 0 {
        let one = ms.push(m);
        assert(one[0] == m);
        assert(one.subrange(1, 1) =~= Seq::<TournamentMatch>::empty());
        assert(ups + u =~= u);
        assert((ups + u).subrange(1, (ups + u).len() as int) =~= u.subrange(1, u.len() as int));
        assert(first_update(ups + u) == first_update(u));
        assert(replay_seq(cfg, st, ms, ups) == Ok::<(ReplayState, Seq<DeltaEvent>), ReplayFault>(
            (st, Seq::empty()),
        ));
        let upd = if consumes_update(cfg, m) {
            first_update(u)
        } else {
            placeholder_update()
        };
        match spec_replay_step(cfg, st, m, upd) {
            Err(_) => {
                assert(updates_follow_model(cfg, st, one, ups + u, rate));
            },
            Ok((st2, _)) => {
                assert(updates_follow_model(
                    cfg,
                    st2,
                    one.subrange(1, 1),
                    (ups + u).subrange(1, (ups + u).len() as int),
                    rate,
                ));
                assert(updates_follow_model(cfg, st2, one.subrange(1, 1), ups + u, rate));
                assert(updates_follow_model(cfg, st, one, ups + u, rate));
            },
        }
    } else {
        let ms1 = ms.subrange(1, ms.len() as int);
        let snoc = ms.push(m);
        assert(snoc[0] == ms[0]);
        assert(snoc.subrange(1, snoc.len() as int) =~= ms1.push(m));
        let c0 = consumes_update(cfg, ms[0]);
        lemma_updates_needed_nonneg(cfg, ms1);
        let upd0 = if c0 {
            first_update(ups)
        } else {
            placeholder_update()
        };
        if c0 {
            assert(ups.len() >= 1);
            assert(first_update(ups + u) == first_update(ups));
        }
        match spec_replay_step(cfg, st, ms[0], upd0) {
            Err(_) => {
                assert(updates_follow_model(cfg, st, snoc, ups + u, rate));
            },
            Ok((sta, _evs0)) => {
                let ups1 = if c0 {
                    ups.subrange(1, ups.len() as int)
                } else {
                    ups
                };
                if c0 {
                    assert((ups + u).subrange(1, (ups + u).len() as int) =~= ups1 + u);
                }
                assert(updates_follow_model(cfg, sta, ms1, ups1, rate));
                assert(consumes_update(cfg, m) ==> match replay_seq(cfg, sta, ms1, ups1) {
                    Ok((st1, _)) => match step_rate_inputs(cfg, st1, m) {
                        Some(args) => call_ensures(rate, args, first_update(u)),
                        None => true,
                    },
                    Err(_) => true,
                });
                lemma_follow_model_snoc(cfg, sta, ms1, m, ups1, u, rate);
                assert(updates_follow_model(cfg, st, snoc, ups + u, rate));
            },
        }
    }
}

/// Adding one match to a sequence adds its own update demand.
pub proof fn lemma_updates_needed_snoc(cfg: ReplayCfg, ms: Seq<TournamentMatch>, m: TournamentMatch)
    ensures
        updates_needed(cfg, ms.push(m)) == updates_needed(cfg, ms) + if consumes_update(cfg, m) {
            1int
        } else {
            0int
        },
    decreases ms.len(),
{
    if ms.len() == 0 {
        assert(ms.push(m)[0] == m);
        assert(ms.push(m).subrange(1, 1) =~= Seq::<TournamentMatch>::empty());
        assert(updates_needed(cfg, ms.push(m).subrange(1, 1)) == 0);
    } else {
        let ms1 = ms.subrange(1, ms.len() as int);
        assert(ms.push(m)[0] == ms[0]);
        assert(ms.push(m).subrange(1, ms.len() as int + 1) =~= ms1.push(m));
        lemma_updates_needed_snoc(cfg, ms1, m);
        assert(updates_needed(cfg, ms.push(m)) == (if consumes_update(cfg, ms[0]) {
            1int
        } else {
            0int
        }) + updates_needed(cfg, ms1.push(m)));
    }
}

/// The reconciler's state that persists across poll cycles: the processed
/// and excluded match sets, the rank index, and the last-known ranks.
#[derive(Debug)]
pub struct ReplayPersistentState {
    pub processed: IdSet,
    pub excluded: IdSet,
    pub ranks: RankVec,
    pub last_ranks: RankMap,
}

impl ReplayPersistentState {
    pub open spec fn wf(self) -> bool {
        self.processed.wf() && self.excluded.wf() && self.ranks.wf() && self.last_ranks.wf()
    }

    /// The mathematical replay state, for a given working table.
    pub open spec fn replay_state(self, table: Seq<SwitzerlandPlayer>) -> ReplayState {
        ReplayState {
            table,
            processed: self.processed@,
            ranks: self.ranks@,
            last_ranks: self.last_ranks@,
        }
    }
}

/// One reconciliation pass: clones the baseline into a fresh working table
/// and replays every match of the snapshot over it, in snapshot order.
///
/// `rate` is the external rating model (a pure pairwise update). The
/// contract ties the pass to the fold `replay_seq`: there is a sequence of
/// update results — one per completed, non-excluded match, in replay order —
/// under which the fold produces exactly the returned working table, the
/// returned events and the final persistent state. Every property of the
/// fold that holds for all update sequences therefore holds of this pass.
///
/// On a fault (a broken programming invariant, see `ReplayFault`) the pass
/// stops: some prefix of the replay faults exactly so, the excluded set is
/// untouched, and the caller must abort rather than persist anything.
pub fn run_replay_cycle<F: Fn(Rating, Rating, bool) -> (Rating, Rating)>(
    baseline: &SwitzerlandPlayerMap,
    matches: &Vec<TournamentMatch>,
    roster: &Roster,
    rounds: &SwissRounds,
    state: &mut ReplayPersistentState,
    rate: &F,
) -> (r: Result<(SwitzerlandPlayerMap, Vec<DeltaEvent>), ReplayFault>)
    requires
        baseline.wf(),
        old(state).wf(),
        forall|a: Rating, b: Rating, w: bool| #[trigger] rate.requires((a, b, w)),
    ensures
        final(state).wf(),
        final(state).excluded@ == old(state).excluded@,
        ({
            let cfg = ReplayCfg {
                roster: roster@,
                excluded: old(state).excluded@,
                rounds: rounds.rounds@,
            };
            let st0 = old(state).replay_state(baseline@);
            match r {
                Ok((working, events)) => working.wf() && exists|ups: Seq<(Rating, Rating)>|
                    ups.len() == updates_needed(cfg, matches@) && #[trigger] replay_seq(
                        cfg,
                        st0,
                        matches@,
                        ups,
                    ) == Ok::<(ReplayState, Seq<DeltaEvent>), ReplayFault>(
                        (final(state).replay_state(working@), events@),
                    ) && updates_follow_model(cfg, st0, matches@, ups, rate),
                Err(f) => exists|i: int, ups: Seq<(Rating, Rating)>|
                    0 <= i <= matches@.len() && #[trigger] replay_seq(
                        cfg,
                        st0,
                        matches@.subrange(0, i),
                        ups,
                    ) == Err::<(ReplayState, Seq<DeltaEvent>), ReplayFault>(f),
            }
        }),
{
    let ghost cfg = ReplayCfg {
        roster: roster@,
        excluded: old(state).excluded@,
        rounds: rounds.rounds@,
    };
    let ghost st0 = old(state).replay_state(baseline@);
    let mut working = baseline.clone_map();
    let mut events: Vec<DeltaEvent> = Vec::new();
    let ghost mut ups: Seq<(Rating, Rating)> = Seq::empty();
    proof {
        assert(matches@.subrange(0, 0) =~= Seq::<TournamentMatch>::empty());
        assert(events@ =~= Seq::<DeltaEvent>::empty());
        assert(state.replay_state(working@) == st0);
        assert(updates_follow_model(cfg, st0, matches@.subrange(0, 0), ups, rate));
    }
    let n = matches.len();
    for idx in 0..n
        invariant
            n == matches@.len(),
            working.wf(),
            state.wf(),
            state.excluded@ == old(state).excluded@,
            cfg == (ReplayCfg {
                roster: roster@,
                excluded: old(state).excluded@,
                rounds: rounds.rounds@,
            }),
            st0 == old(state).replay_state(baseline@),
            ups.len() == updates_needed(cfg, matches@.subrange(0, idx as int)),
            replay_seq(cfg, st0, matches@.subrange(0, idx as int), ups) == Ok::<
                (ReplayState, Seq<DeltaEvent>),
                ReplayFault,
            >((state.replay_state(working@), events@)),
            updates_follow_model(cfg, st0, matches@.subrange(0, idx as int), ups, rate),
            forall|a: Rating, b: Rating, w: bool| #[trigger] rate.requires((a, b, w)),
    {
        let ghost prefix = matches@.subrange(0, idx as int);
        let ghost pre = state.replay_state(working@);
        let ghost prev_events = events@;
        let m = matches[idx];
        proof {
            assert(matches@.subrange(0, idx + 1) =~= prefix.push(m));
        }
        if state.excluded.contains(m.id) {
            proof {
                assert(spec_replay_step(cfg, pre, m, placeholder_update()) == Ok::<
                    (ReplayState, Seq<DeltaEvent>),
                    ReplayFault,
                >((pre, Seq::empty())));
                lemma_replay_snoc(cfg, st0, prefix, m, ups, Seq::empty());
                lemma_follow_model_snoc(cfg, st0, prefix, m, ups, Seq::empty(), rate);
                lemma_updates_needed_snoc(cfg, prefix, m);
                assert(ups + Seq::<(Rating, Rating)>::empty() =~= ups);
                assert(prev_events + Seq::<DeltaEvent>::empty() =~= prev_events);
            }
        } else if m.is_bye() {
            let is_new = state.processed.insert(m.id);
            if !is_new {
                proof {
                    assert(state.processed@ =~= pre.processed);
                    assert(state.replay_state(working@) == pre);
                    assert(spec_replay_step(cfg, pre, m, placeholder_update()) == Ok::<
                        (ReplayState, Seq<DeltaEvent>),
                        ReplayFault,
                    >((pre, Seq::empty())));
                    lemma_replay_snoc(cfg, st0, prefix, m, ups, Seq::empty());
                    lemma_follow_model_snoc(cfg, st0, prefix, m, ups, Seq::empty(), rate);
                    lemma_updates_needed_snoc(cfg, prefix, m);
                    assert(ups + Seq::<(Rating, Rating)>::empty() =~= ups);
                    assert(prev_events + Seq::<DeltaEvent>::empty() =~= prev_events);
                }
            } else {
                let opp = if m.opponent1.is_some() {
                    m.opponent1
                } else {
                    m.opponent2
                };
                let side = match resolve_side(roster, &working, &opp) {
                    Err(f) => {
                        proof {
                            assert(spec_replay_step(cfg, pre, m, placeholder_update())
                                == Err::<(ReplayState, Seq<DeltaEvent>), ReplayFault>(f));
                            lemma_replay_snoc(cfg, st0, prefix, m, ups, Seq::empty());
                            lemma_updates_needed_snoc(cfg, prefix, m);
                            assert(ups + Seq::<(Rating, Rating)>::empty() =~= ups);
                            assert(replay_seq(cfg, st0, matches@.subrange(0, idx + 1), ups)
                                == Err::<(ReplayState, Seq<DeltaEvent>), ReplayFault>(f));
                        }
                        return Err(f);
                    },
                    Ok(side) => side,
                };
                let old_rank = state.last_ranks.get(&side.player);
                let new_rank = match old_rank {
                    Some(r) => r,
                    None => 0,
                };
                let calc_round = rounds.calc_round(m.round_id);
                let event = DeltaEvent {
                    player: side.player,
                    match_id: m.id,
                    team: side.team,
                    opponent_team: None,
                    result: side.result,
                    calc_round,
                    old_rating: side.rating,
                    new_rating: side.rating,
                    old_rank,
                    new_rank,
                    language: side.language,
                    bye: true,
                };
                let ghost bye_event = event;
                proof {
                    assert(spec_replay_step(cfg, pre, m, placeholder_update()) == Ok::<
                        (ReplayState, Seq<DeltaEvent>),
                        ReplayFault,
                    >(
                        (
                            ReplayState { processed: pre.processed.insert(m.id), ..pre },
                            seq![bye_event],
                        ),
                    ));
                }
                events.push(event);
                proof {
                    assert(state.replay_state(working@) == (ReplayState {
                        processed: pre.processed.insert(m.id),
                        ..pre
                    }));
                    lemma_replay_snoc(cfg, st0, prefix, m, ups, Seq::empty());
                    lemma_follow_model_snoc(cfg, st0, prefix, m, ups, Seq::empty(), rate);
                    lemma_updates_needed_snoc(cfg, prefix, m);
                    assert(ups + Seq::<(Rating, Rating)>::empty() =~= ups);
                    assert(prev_events + seq![bye_event] =~= events@);
                }
            }
        } else if !(m.status == TournamentMatchStatus::Completed) {
            state.processed.remove(m.id);
            proof {
                assert(spec_replay_step(cfg, pre, m, placeholder_update()) == Ok::<
                    (ReplayState, Seq<DeltaEvent>),
                    ReplayFault,
                >((ReplayState { processed: pre.processed.remove(m.id), ..pre }, Seq::empty())));
                assert(state.replay_state(working@) == (ReplayState {
                    processed: pre.processed.remove(m.id),
                    ..pre
                }));
                lemma_replay_snoc(cfg, st0, prefix, m, ups, Seq::empty());
                lemma_follow_model_snoc(cfg, st0, prefix, m, ups, Seq::empty(), rate);
                lemma_updates_needed_snoc(cfg, prefix, m);
                assert(ups + Seq::<(Rating, Rating)>::empty() =~= ups);
                assert(prev_events + Seq::<DeltaEvent>::empty() =~= prev_events);
            }
        } else {
            let is_new = state.processed.insert(m.id);
            let ghost st1 = ReplayState { processed: pre.processed.insert(m.id), ..pre };
            let s1 = match resolve_side(roster, &working, &m.opponent1) {
                Err(f) => {
                    proof {
                        assert(spec_replay_step(cfg, pre, m, placeholder_update()) == Err::<
                            (ReplayState, Seq<DeltaEvent>),
                            ReplayFault,
                        >(f));
                        lemma_replay_snoc(cfg, st0, prefix, m, ups, seq![placeholder_update()]);
                        assert(replay_seq(
                            cfg,
                            st0,
                            matches@.subrange(0, idx + 1),
                            ups + seq![placeholder_update()],
                        ) == Err::<(ReplayState, Seq<DeltaEvent>), ReplayFault>(f));
                    }
                    return Err(f);
                },
                Ok(s) => s,
            };
            let s2 = match resolve_side(roster, &working, &m.opponent2) {
                Err(f) => {
                    proof {
                        assert(spec_replay_step(cfg, pre, m, placeholder_update()) == Err::<
                            (ReplayState, Seq<DeltaEvent>),
                            ReplayFault,
                        >(f));
                        lemma_replay_snoc(cfg, st0, prefix, m, ups, seq![placeholder_update()]);
                        assert(replay_seq(
                            cfg,
                            st0,
                            matches@.subrange(0, idx + 1),
                            ups + seq![placeholder_update()],
                        ) == Err::<(ReplayState, Seq<DeltaEvent>), ReplayFault>(f));
                    }
                    return Err(f);
                },
                Ok(s) => s,
            };
            if s1.result.is_none() {
                proof {
                    assert(spec_replay_step(cfg, pre, m, placeholder_update()) == Err::<
                        (ReplayState, Seq<DeltaEvent>),
                        ReplayFault,
                    >(ReplayFault::MissingResult));
                    lemma_replay_snoc(cfg, st0, prefix, m, ups, seq![placeholder_update()]);
                    assert(replay_seq(
                        cfg,
                        st0,
                        matches@.subrange(0, idx + 1),
                        ups + seq![placeholder_update()],
                    ) == Err::<(ReplayState, Seq<DeltaEvent>), ReplayFault>(
                        ReplayFault::MissingResult,
                    ));
                }
                return Err(ReplayFault::MissingResult);
            }
            let a_won = match s1.result {
                Some(TournamentMatchResult::Win) => true,
                _ => false,
            };
            let updated = rate(s1.rating, s2.rating, a_won);
            let n1 = updated.0;
            let n2 = updated.1;
            let ghost upd = (n1, n2);
            let calc_round = rounds.calc_round(m.round_id);
            let ev1 = match exec_side_update(
                &mut working,
                &mut state.ranks,
                &mut state.last_ranks,
                m.id,
                calc_round,
                &s1,
                s2.team,
                n1,
                is_new,
            ) {
                Err(f) => {
                    proof {
                        assert(spec_replay_step(cfg, pre, m, upd) == Err::<
                            (ReplayState, Seq<DeltaEvent>),
                            ReplayFault,
                        >(f));
                        lemma_replay_snoc(cfg, st0, prefix, m, ups, seq![upd]);
                        assert(first_update(seq![upd]) == upd);
                        assert(replay_seq(cfg, st0, matches@.subrange(0, idx + 1), ups + seq![upd])
                            == Err::<(ReplayState, Seq<DeltaEvent>), ReplayFault>(f));
                    }
                    return Err(f);
                },
                Ok(o) => o,
            };
            let ghost mid_working = working@;
            let ghost mid_ranks = state.ranks@;
            let ghost mid_last = state.last_ranks@;
            let ghost ev1_seq: Seq<DeltaEvent> = if ev1 is Some {
                seq![ev1->Some_0]
            } else {
                Seq::empty()
            };
            let ev2 = match exec_side_update(
                &mut working,
                &mut state.ranks,
                &mut state.last_ranks,
                m.id,
                calc_round,
                &s2,
                s1.team,
                n2,
                is_new,
            ) {
                Err(f) => {
                    proof {
                        assert(spec_replay_step(cfg, pre, m, upd) == Err::<
                            (ReplayState, Seq<DeltaEvent>),
                            ReplayFault,
                        >(f));
                        lemma_replay_snoc(cfg, st0, prefix, m, ups, seq![upd]);
                        assert(first_update(seq![upd]) == upd);
                        assert(replay_seq(cfg, st0, matches@.subrange(0, idx + 1), ups + seq![upd])
                            == Err::<(ReplayState, Seq<DeltaEvent>), ReplayFault>(f));
                    }
                    return Err(f);
                },
                Ok(o) => o,
            };
            let ghost ev2_seq: Seq<DeltaEvent> = if ev2 is Some {
                seq![ev2->Some_0]
            } else {
                Seq::empty()
            };
            proof {
                assert(spec_replay_step(cfg, pre, m, upd) == Ok::<
                    (ReplayState, Seq<DeltaEvent>),
                    ReplayFault,
                >((state.replay_state(working@), ev1_seq + ev2_seq)));
            }
            match ev1 {
                Some(e) => events.push(e),
                None => {},
            }
            match ev2 {
                Some(e) => events.push(e),
                None => {},
            }
            proof {
                assert(prev_events + (ev1_seq + ev2_seq) =~= events@);
                lemma_replay_snoc(cfg, st0, prefix, m, ups, seq![upd]);
                assert(consumes_update(cfg, m));
                assert(upd == updated);
                assert(step_rate_inputs(cfg, pre, m) == Some((s1.rating, s2.rating, a_won)));
                assert(call_ensures(rate, (s1.rating, s2.rating, a_won), upd));
                assert(first_update(seq![upd]) == upd);
                lemma_follow_model_snoc(cfg, st0, prefix, m, ups, seq![upd], rate);
                lemma_updates_needed_snoc(cfg, prefix, m);
                ups = ups + seq![upd];
            }
        }
        proof {
            if consumes_update(cfg, m) {
            } else {
                lemma_updates_needed_snoc(cfg, prefix, m);
            }
        }
    }
    proof {
        assert(matches@.subrange(0, n as int) =~= matches@);
    }
    Ok((working, events))
}

} // verus!
