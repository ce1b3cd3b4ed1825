//! One-time tournament setup: the team roster, the seeded ratings of new
//! entrants, the swiss round ordering, and the wait for the start time.

use vstd::prelude::*;
use crate::db::{PlayerId, SwitzerlandPlayer, SwitzerlandPlayerMap};
use crate::rating::{Rating, DEFAULT_RATING_VOLATILITY};
use crate::reconcile::{roster_contains, Roster, SwissRounds};
use crate::schema::{
    SendouId, TournamentContext, TournamentData, TournamentStageSettings, TournamentTeam,
};

verus! {

/// Seeding ordinals are clamped to this range (micro-units) before they
/// seed a rating; observed ordinals all fall inside it.
pub const SEEDING_ORDINAL_MIN: i64 = -10_000_000;

pub const SEEDING_ORDINAL_MAX: i64 = 40_000_000;

pub open spec fn clamped_ordinal(ord: i64) -> int {
    if ord < SEEDING_ORDINAL_MIN {
        SEEDING_ORDINAL_MIN as int
    } else if ord > SEEDING_ORDINAL_MAX {
        SEEDING_ORDINAL_MAX as int
    } else {
        ord as int
    }
}

/// The rating a new entrant starts from: ten points per seeding ordinal
/// above 1500, with the deviation shrunk by 3.75 points per ordinal of
/// distance from zero.
pub open spec fn seeded_rating(ord: i64) -> Rating {
    let c = clamped_ordinal(ord);
    let dist = if c < 0 {
        0 - c
    } else {
        c
    };
    Rating {
        value: (c * 10 + 1_500_000_000) as i64,
        deviation: (350_000_000 - dist * 15 / 4) as i64,
        volatility: DEFAULT_RATING_VOLATILITY,
    }
}

/// Computes the seeded rating for a team's average seeding ordinal.
pub fn seed_rating_from_ordinal(ord: i64) -> (r: Rating)
    ensures
        r == seeded_rating(ord),
{
    let c: i64 = if ord < SEEDING_ORDINAL_MIN {
        SEEDING_ORDINAL_MIN
    } else if ord > SEEDING_ORDINAL_MAX {
        SEEDING_ORDINAL_MAX
    } else {
        ord
    };
    let dist: i64 = if c < 0 {
        -c
    } else {
        c
    };
    Rating {
        value: c * 10 + 1_500_000_000,
        deviation: 350_000_000 - dist * 15 / 4,
        volatility: DEFAULT_RATING_VOLATILITY,
    }
}

/// What `initialize_teams` does to the table for one team: the entering
/// player is created with the team's seeded rating if unseen, and their
/// display name is refreshed either way.
pub open spec fn spec_register_team(
    table: Seq<SwitzerlandPlayer>,
    team: TournamentTeam,
) -> Seq<SwitzerlandPlayer> {
    let player = team.members[0];
    let id = PlayerId::Sendou(player.user_id);
    let entry = if crate::db::seq_contains_key(table, id.key()) {
        table
    } else {
        table.push(
            SwitzerlandPlayer {
                id,
                display_name: None,
                language: None,
                rank: None,
                rating: seeded_rating(team.avg_seeding_skill_ordinal),
                unrated: true,
            },
        )
    };
    let i = crate::db::index_of_key(entry, id.key());
    entry.update(
        i,
        SwitzerlandPlayer { display_name: Some(player.username), ..entry[i] },
    )
}

/// Registers every team of the tournament: maps each team to its entering
/// player (the first member), creates unseen players with their seeded
/// rating marked unrated, and refreshes display names. Returns the roster.
///
/// Every team must have at least one member; the bracket service only
/// creates teams with members.
pub fn initialize_teams(
    context: &TournamentContext,
    players: &mut SwitzerlandPlayerMap,
) -> (roster: Roster)
    requires
        old(players).wf(),
        forall|k: int| 0 <= k < context.teams@.len()
            ==> (#[trigger] context.teams@[k]).members@.len() > 0,
    ensures
        final(players).wf(),
        roster.wf(),
        final(players)@ == spec_register_teams(old(players)@, context.teams@),
        roster@ == spec_roster(context.teams@),
{
    let mut roster = Roster::new();
    let n = context.teams.len();
    proof {
        assert(context.teams@.subrange(0, 0) =~= Seq::<TournamentTeam>::empty());
    }
    for i in 0..n
        invariant
            n == context.teams@.len(),
            players.wf(),
            roster.wf(),
            forall|k: int| 0 <= k < context.teams@.len()
                ==> (#[trigger] context.teams@[k]).members@.len() > 0,
            players@ == spec_register_teams(old(players)@, context.teams@.subrange(0, i as int)),
            roster@ == spec_roster(context.teams@.subrange(0, i as int)),
    {
        let ghost prefix = context.teams@.subrange(0, i as int);
        let ghost t0 = spec_register_teams(old(players)@, prefix);
        let team = &context.teams[i];
        let member = &team.members[0];
        let id = PlayerId::Sendou(member.user_id);
        let ghost gid = id;
        let seeded = SwitzerlandPlayer {
            id: id.clone(),
            display_name: None,
            language: None,
            rank: None,
            rating: seed_rating_from_ordinal(team.avg_seeding_skill_ordinal),
            unrated: true,
        };
        let ghost gseeded = seeded;
        proof {
            if !crate::db::seq_contains_key(t0, gid.key()) {
                crate::db::lemma_absent_key(t0, gid.key());
                assert(t0.push(gseeded)[t0.len() as int].id.key() == gid.key());
                crate::db::lemma_index_of_key_first(t0.push(gseeded), gid.key(), t0.len() as int);
            }
        }
        let at = players.ensure(seeded);
        let entry = players.index(at).clone();
        let renamed = SwitzerlandPlayer {
            id: entry.id,
            display_name: Some(member.username.clone()),
            language: entry.language,
            rank: entry.rank,
            rating: entry.rating,
            unrated: entry.unrated,
        };
        players.set_at(at, renamed);
        roster.add_team(team.id, id);
        proof {
            let team_v = context.teams@[i as int];
            assert(players@ == spec_register_team(t0, team_v));
            assert(context.teams@.subrange(0, i + 1).drop_last() =~= prefix);
            assert(context.teams@.subrange(0, i + 1).last() == team_v);
        }
    }
    proof {
        assert(context.teams@.subrange(0, n as int) =~= context.teams@);
    }
    roster
}

/// The table after every team of the list is registered, in order.
pub open spec fn spec_register_teams(
    table: Seq<SwitzerlandPlayer>,
    teams: Seq<TournamentTeam>,
) -> Seq<SwitzerlandPlayer>
    decreases teams.len(),
{
    if teams.len() == 0 {
        table
    } else {
        spec_register_team(spec_register_teams(table, teams.drop_last()), teams.last())
    }
}

/// The roster the team list induces: each team mapped to its entering
/// player, first assignment kept.
pub open spec fn spec_roster(teams: Seq<TournamentTeam>) -> Seq<(SendouId, PlayerId)>
    decreases teams.len(),
{
    if teams.len() == 0 {
        Seq::empty()
    } else {
        let prev = spec_roster(teams.drop_last());
        let team = teams.last();
        if roster_contains(prev, team.id) {
            prev
        } else {
            prev.push((team.id, PlayerId::Sendou(team.members[0].user_id)))
        }
    }
}

/// The first swiss round id of a round list, scanning from one position.
pub open spec fn spec_swiss_stage(stages: Seq<crate::schema::TournamentStage>) -> Option<
    (SendouId, u32),
>
    decreases stages.len(),
{
    if stages.len() == 0 {
        None
    } else {
        match stages[0].settings {
            TournamentStageSettings::Swiss { swiss } => Some((stages[0].id, swiss.round_count)),
            _ => spec_swiss_stage(stages.subrange(1, stages.len() as int)),
        }
    }
}

/// The swiss rounds of a stage, ordered by ascending round number; stable
/// insertion keeps equal numbers in list order.
pub open spec fn spec_sorted_rounds(
    rounds: Seq<crate::schema::TournamentRound>,
    stage: SendouId,
) -> Seq<(SendouId, u32)>
    decreases rounds.len(),
{
    if rounds.len() == 0 {
        Seq::empty()
    } else {
        let prev = spec_sorted_rounds(rounds.drop_last(), stage);
        let r = rounds.last();
        if r.stage_id == stage {
            prev.insert(count_number_le(prev, r.number), (r.id, r.number))
        } else {
            prev
        }
    }
}

/// Number of entries with a round number at most `v`.
pub open spec fn count_number_le(s: Seq<(SendouId, u32)>, v: u32) -> int
    decreases s.len(),
{
    if s.len() == 0 {
        0
    } else {
        count_number_le(s.drop_last(), v) + if s.last().1 <= v {
            1int
        } else {
            0int
        }
    }
}

pub open spec fn sorted_by_number(s: Seq<(SendouId, u32)>) -> bool {
    forall|i: int, j: int| 0 <= i < j < s.len() ==> s[i].1 <= s[j].1
}

proof fn lemma_count_number_le_bounds(s: Seq<(SendouId, u32)>, v: u32)
    ensures
        0 <= count_number_le(s, v) <= s.len(),
    decreases s.len(),
{
    if s.len() > 0 {
        lemma_count_number_le_bounds(s.drop_last(), v);
    }
}

proof fn lemma_count_number_le_partition(s: Seq<(SendouId, u32)>, v: u32, i: int)
    requires
        0 <= i <= s.len(),
        forall|k: int| 0 <= k < i ==> s[k].1 <= v,
        forall|k: int| i <= k < s.len() ==> s[k].1 > v,
    ensures
        count_number_le(s, v) == i,
    decreases s.len(),
{
    if s.len() > 0 {
        if i == s.len() {
            lemma_count_number_le_partition(s.drop_last(), v, i - 1);
        } else {
            lemma_count_number_le_partition(s.drop_last(), v, i);
        }
    }
}

fn insert_round_sorted(out: &mut Vec<(SendouId, u32)>, entry: (SendouId, u32))
    requires
        sorted_by_number(old(out)@),
    ensures
        final(out)@ == old(out)@.insert(count_number_le(old(out)@, entry.1), entry),
        sorted_by_number(final(out)@),
{
    let v = entry.1;
    let mut j: usize = 0;
    while j < out.len() && out[j].1 <= v
        invariant
            j <= out@.len(),
            sorted_by_number(out@),
            v == entry.1,
            forall|k: int| 0 <= k < j ==> out@[k].1 <= v,
        decreases out@.len() - j,
    {
        j = j + 1;
    }
    proof {
        assert forall|k: int| j <= k < out@.len() implies out@[k].1 > v by {
            assert(out@[j as int].1 >= 0);
            assert(out@[k].1 >= out@[j as int].1);
        }
        lemma_count_number_le_partition(out@, v, j as int);
        lemma_count_number_le_bounds(out@, v);
        out@.insert_ensures(j as int, entry);
    }
    out.insert(j, entry);
    proof {
        let s = old(out)@;
        let t = final(out)@;
        assert(forall|k: int| 0 <= k < j ==> t[k] == s[k]);
        assert(t[j as int] == entry);
        assert(forall|k: int| j < k < t.len() ==> t[k] == s[k - 1]);
        assert(sorted_by_number(t));
    }
}

/// Finds the swiss stage of the snapshot and its rounds, ordered by round
/// number. The progress display and the replay's round annotations read
/// this; `None` when the bracket holds no swiss stage yet.
pub fn swiss_rounds(data: &TournamentData) -> (r: Option<SwissRounds>)
    ensures
        match r {
            Some(sr) => {
                &&& spec_swiss_stage(data.stages@) matches Some((stage, count))
                    && sr.round_count == count && sr.rounds@ == spec_sorted_rounds(
                    data.rounds@,
                    stage,
                )
                &&& sorted_by_number(sr.rounds@)
            },
            None => spec_swiss_stage(data.stages@) is None,
        },
{
    let n = data.stages.len();
    let mut stage_found: Option<(SendouId, u32)> = None;
    proof {
        assert(data.stages@.subrange(0, n as int) =~= data.stages@);
    }
    let mut i: usize = 0;
    while i < n && stage_found.is_none()
        invariant
            n == data.stages@.len(),
            i <= n,
            match stage_found {
                Some(p) => spec_swiss_stage(data.stages@) == Some(p),
                None => spec_swiss_stage(data.stages@) == spec_swiss_stage(
                    data.stages@.subrange(i as int, n as int),
                ),
            },
        decreases n - i,
    {
        proof {
            assert(data.stages@.subrange(i as int, n as int).subrange(1, (n - i) as int)
                =~= data.stages@.subrange(i + 1, n as int));
            assert(data.stages@.subrange(i as int, n as int)[0] == data.stages@[i as int]);
        }
        match &data.stages[i].settings {
            TournamentStageSettings::Swiss { swiss } => {
                stage_found = Some((data.stages[i].id, swiss.round_count));
            },
            _ => {
            },
        }
        i = i + 1;
    }
    proof {
        if stage_found is None {
            assert(data.stages@.subrange(n as int, n as int)
                =~= Seq::<crate::schema::TournamentStage>::empty());
        }
    }
    let (stage, round_count) = match stage_found {
        Some(p) => p,
        None => {
            return None;
        },
    };
    let mut rounds: Vec<(SendouId, u32)> = Vec::new();
    let rn = data.rounds.len();
    proof {
        assert(rounds@ =~= Seq::<(SendouId, u32)>::empty());
        assert(data.rounds@.subrange(0, 0) =~= Seq::<crate::schema::TournamentRound>::empty());
    }
    for k in 0..rn
        invariant
            rn == data.rounds@.len(),
            sorted_by_number(rounds@),
            rounds@ == spec_sorted_rounds(data.rounds@.subrange(0, k as int), stage),
    {
        let ghost prefix = data.rounds@.subrange(0, k as int);
        let r = &data.rounds[k];
        if r.stage_id == stage {
            insert_round_sorted(&mut rounds, (r.id, r.number));
        }
        proof {
            assert(data.rounds@.subrange(0, k + 1).drop_last() =~= prefix);
            assert(data.rounds@.subrange(0, k + 1).last() == data.rounds@[k as int]);
        }
    }
    proof {
        assert(data.rounds@.subrange(0, rn as int) =~= data.rounds@);
    }
    Some(SwissRounds { rounds, round_count })
}

/// Seconds to wait before the tournament's scheduled start, from the
/// current time; zero when the start has passed.
pub fn startup_delay(start_time: i64, now: i64) -> (r: u64)
    ensures
        start_time > now ==> r == start_time - now,
        start_time <= now ==> r == 0,
{
    if start_time > now {
        let diff: i128 = start_time as i128 - now as i128;
        proof {
            assert(0 < diff < 0x1_0000_0000_0000_0000);
        }
        diff as u64
    } else {
        0
    }
}

/// Which identity rewrite a migration run performs: adopting bracket
/// service ids, or renaming legacy entries.
#[derive(Clone, Copy, PartialEq, Eq, Structural, Debug)]
pub enum MigrationStyle {
    ToSendou,
    ChangeName,
}

/// Rewrites one player's identity, as the migration flow does: the entry
/// leaves its position under the old identity and is stored again under the
/// new one (replacing any entry the new identity already had, else
/// appended), with the display name refreshed.
pub fn apply_migration(
    players: &mut SwitzerlandPlayerMap,
    old_id: &PlayerId,
    new_id: PlayerId,
    new_display_name: Option<String>,
) -> (moved: bool)
    requires
        old(players).wf(),
    ensures
        final(players).wf(),
        moved == old(players).contains_key(old_id.key()),
        !moved ==> final(players)@ == old(players)@,
        moved ==> ({
            let removed = old(players)@.remove(
                crate::db::index_of_key(old(players)@, old_id.key()),
            );
            let entry = SwitzerlandPlayer {
                id: new_id,
                display_name: new_display_name,
                ..old(players)@[crate::db::index_of_key(old(players)@, old_id.key())]
            };
            final(players)@ == if crate::db::seq_contains_key(removed, new_id.key()) {
                removed.update(crate::db::index_of_key(removed, new_id.key()), entry)
            } else {
                removed.push(entry)
            }
        }),
{
    let taken = players.remove(old_id);
    match taken {
        None => false,
        Some(p) => {
            let entry = SwitzerlandPlayer {
                id: new_id,
                display_name: new_display_name,
                language: p.language,
                rank: p.rank,
                rating: p.rating,
                unrated: p.unrated,
            };
            players.insert(entry);
            true
        },
    }
}

/// Picks the language a console interaction selects: an explicit option is
/// looked up as a language tag, otherwise the interaction's locale decides.
pub fn resolve_language_choice(option: Option<&String>, locale: &str) -> (r: Option<
    crate::lang::Language,
>)
    ensures
        r == match option {
            Some(s) => crate::lang::Language::spec_from_id(s@),
            None => crate::lang::Language::spec_from_discord_id(locale@),
        },
{
    match option {
        Some(s) => crate::lang::Language::from_id(s.as_str()),
        None => crate::lang::Language::from_discord_id(locale),
    }
}

} // verus!
