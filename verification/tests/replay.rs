use skillratings::glicko2::{glicko2, Glicko2Config, Glicko2Rating};
use skillratings::Outcomes;
use switzerland_power_calc::db::{PlayerId, SwitzerlandPlayer, SwitzerlandPlayerMap};
use switzerland_power_calc::idset::IdSet;
use switzerland_power_calc::lang::Language;
use switzerland_power_calc::rank_map::RankMap;
use switzerland_power_calc::rank_vec::RankVec;
use switzerland_power_calc::reconcile::{
    run_replay_cycle, ReplayFault, ReplayPersistentState, Roster, SwissRounds,
};
use switzerland_power_calc::schema::{
    TournamentMatch, TournamentMatchOpponent, TournamentMatchResult, TournamentMatchStatus,
};
use switzerland_power_calc::Rating;

fn to_fixed(r: Glicko2Rating) -> Rating {
    Rating {
        value: (r.rating * 1_000_000.0).round() as i64,
        deviation: (r.deviation * 1_000_000.0).round() as i64,
        volatility: (r.volatility * 1_000_000.0).round() as i64,
    }
}

fn to_float(r: Rating) -> Glicko2Rating {
    Glicko2Rating {
        rating: r.value as f64 / 1_000_000.0,
        deviation: r.deviation as f64 / 1_000_000.0,
        volatility: r.volatility as f64 / 1_000_000.0,
    }
}

fn rate_model(a: Rating, b: Rating, a_won: bool) -> (Rating, Rating) {
    let outcome = if a_won { Outcomes::WIN } else { Outcomes::LOSS };
    let (na, nb) = glicko2(&to_float(a), &to_float(b), &outcome, &Glicko2Config::default());
    (to_fixed(na), to_fixed(nb))
}

fn player(id: u32, rating_points: i64) -> SwitzerlandPlayer {
    SwitzerlandPlayer {
        id: PlayerId::Sendou(id),
        display_name: Some(format!("player-{id}")),
        language: Some(Language::EnglishUnitedStates),
        rank: None,
        rating: Rating {
            value: rating_points * 1_000_000,
            deviation: 350_000_000,
            volatility: 60_000,
        },
        unrated: false,
    }
}

fn setup(baseline: &SwitzerlandPlayerMap) -> ReplayPersistentState {
    let ranks = RankVec::new(baseline.ratings());
    let mut last_ranks = RankMap::new();
    let mut i = 0;
    while i < baseline.len() {
        let p = baseline.index(i);
        let rank = ranks.rank_of(p.rating);
        last_ranks.insert(p.id.clone(), rank, p.rating);
        i += 1;
    }
    ReplayPersistentState {
        processed: IdSet::new(),
        excluded: IdSet::new(),
        ranks,
        last_ranks,
    }
}

fn completed_match(id: u32, team1: u32, team2: u32, team1_won: bool) -> TournamentMatch {
    TournamentMatch {
        id,
        opponent1: Some(TournamentMatchOpponent {
            id: Some(team1),
            result: Some(if team1_won {
                TournamentMatchResult::Win
            } else {
                TournamentMatchResult::Loss
            }),
        }),
        opponent2: Some(TournamentMatchOpponent {
            id: Some(team2),
            result: Some(if team1_won {
                TournamentMatchResult::Loss
            } else {
                TournamentMatchResult::Win
            }),
        }),
        round_id: 100,
        status: TournamentMatchStatus::Completed,
    }
}

fn two_player_fixture() -> (SwitzerlandPlayerMap, Roster, SwissRounds) {
    let mut baseline = SwitzerlandPlayerMap::new();
    baseline.insert(player(1, 1500));
    baseline.insert(player(2, 1400));
    let mut roster = Roster::new();
    roster.add_team(10, PlayerId::Sendou(1));
    roster.add_team(20, PlayerId::Sendou(2));
    let rounds = SwissRounds {
        rounds: vec![(100, 1), (101, 2)],
        round_count: 2,
    };
    (baseline, roster, rounds)
}

#[test]
fn two_entities_one_completed_match() {
    let (baseline, roster, rounds) = two_player_fixture();
    let mut state = setup(&baseline);
    let matches = vec![completed_match(7, 10, 20, true)];

    // first cycle: ratings move per the rating model, one event per entity
    let (working, events) =
        run_replay_cycle(&baseline, &matches, &roster, &rounds, &mut state, &rate_model)
            .expect("replay");
    let (expect_a, expect_b) = rate_model(
        Rating { value: 1_500_000_000, deviation: 350_000_000, volatility: 60_000 },
        Rating { value: 1_400_000_000, deviation: 350_000_000, volatility: 60_000 },
        true,
    );
    let a = working.get(&PlayerId::Sendou(1)).expect("a");
    let b = working.get(&PlayerId::Sendou(2)).expect("b");
    assert_eq!(a.rating, expect_a);
    assert_eq!(b.rating, expect_b);
    assert!(!a.unrated && !b.unrated);

    assert_eq!(events.len(), 2);
    assert_eq!(events[0].player, PlayerId::Sendou(1));
    assert_eq!(events[0].match_id, 7);
    assert_eq!(events[0].old_rank, Some(1));
    assert_eq!(events[0].new_rank, 1);
    assert!(!events[0].bye);
    assert_eq!(events[0].result, Some(TournamentMatchResult::Win));
    assert_eq!(events[0].calc_round, Some(1));
    assert_eq!(events[1].player, PlayerId::Sendou(2));
    assert_eq!(events[1].old_rank, Some(2));
    assert_eq!(events[1].new_rank, 2);

    // second cycle over the identical snapshot: same table, zero events
    let (working2, events2) =
        run_replay_cycle(&baseline, &matches, &roster, &rounds, &mut state, &rate_model)
            .expect("replay again");
    assert_eq!(events2.len(), 0);
    let a2 = working2.get(&PlayerId::Sendou(1)).expect("a2");
    let b2 = working2.get(&PlayerId::Sendou(2)).expect("b2");
    assert_eq!(a2.rating, expect_a);
    assert_eq!(b2.rating, expect_b);
}

#[test]
fn bye_emits_one_unchanged_event_once() {
    let (baseline, roster, rounds) = two_player_fixture();
    let mut state = setup(&baseline);
    let bye = TournamentMatch {
        id: 9,
        opponent1: Some(TournamentMatchOpponent { id: Some(10), result: None }),
        opponent2: None,
        round_id: 100,
        status: TournamentMatchStatus::Ready,
    };
    let matches = vec![bye];

    let (working, events) =
        run_replay_cycle(&baseline, &matches, &roster, &rounds, &mut state, &rate_model)
            .expect("replay");
    assert_eq!(events.len(), 1);
    assert!(events[0].bye);
    assert_eq!(events[0].old_rating, events[0].new_rating);
    assert_eq!(events[0].old_rank, Some(1));
    assert_eq!(events[0].new_rank, 1);
    assert_eq!(
        working.get(&PlayerId::Sendou(1)).unwrap().rating.value,
        1_500_000_000
    );

    // every later cycle observing the bye emits nothing
    let (_working2, events2) =
        run_replay_cycle(&baseline, &matches, &roster, &rounds, &mut state, &rate_model)
            .expect("replay again");
    assert_eq!(events2.len(), 0);
}

#[test]
fn excluded_match_never_contributes() {
    let (baseline, roster, rounds) = two_player_fixture();
    let mut state = setup(&baseline);
    // the operator skips the match before it ever completes
    state.excluded.insert(7);
    let matches = vec![completed_match(7, 10, 20, true)];

    for _ in 0..3 {
        let (working, events) =
            run_replay_cycle(&baseline, &matches, &roster, &rounds, &mut state, &rate_model)
                .expect("replay");
        assert_eq!(events.len(), 0);
        assert_eq!(
            working.get(&PlayerId::Sendou(1)).unwrap().rating.value,
            1_500_000_000
        );
        assert_eq!(
            working.get(&PlayerId::Sendou(2)).unwrap().rating.value,
            1_400_000_000
        );
    }
}

#[test]
fn reopened_match_is_reprocessed_on_recompletion() {
    let (baseline, roster, rounds) = two_player_fixture();
    let mut state = setup(&baseline);
    let matches = vec![completed_match(7, 10, 20, true)];
    let (w1, events1) =
        run_replay_cycle(&baseline, &matches, &roster, &rounds, &mut state, &rate_model)
            .expect("replay");
    assert_eq!(events1.len(), 2);

    // the bracket service un-completes the match: no event, and the id
    // leaves the processed set so a later recompletion is processed anew
    let reopened = vec![TournamentMatch {
        status: TournamentMatchStatus::Running,
        ..matches[0]
    }];
    let (_w2, events2) =
        run_replay_cycle(&baseline, &reopened, &roster, &rounds, &mut state, &rate_model)
            .expect("replay reopened");
    assert_eq!(events2.len(), 0);

    // recompletion withdraws the rating the index actually stores (the one
    // tracked at the first processing) and emits the two events again
    let (w3, events3) =
        run_replay_cycle(&baseline, &matches, &roster, &rounds, &mut state, &rate_model)
            .expect("replay recompleted");
    assert_eq!(events3.len(), 2);
    assert_eq!(events3[0].old_rank, Some(1));
    assert_eq!(events3[0].new_rank, 1);
    assert_eq!(
        w3.get(&PlayerId::Sendou(1)).unwrap().rating,
        w1.get(&PlayerId::Sendou(1)).unwrap().rating
    );
    assert_eq!(
        w3.get(&PlayerId::Sendou(2)).unwrap().rating,
        w1.get(&PlayerId::Sendou(2)).unwrap().rating
    );
}

#[test]
fn chained_matches_accumulate_ratings() {
    // two completed matches of the same entity in one snapshot: the second
    // reads the rating the first one wrote
    let mut baseline = SwitzerlandPlayerMap::new();
    baseline.insert(player(1, 1500));
    baseline.insert(player(2, 1400));
    baseline.insert(player(3, 1450));
    let mut roster = Roster::new();
    roster.add_team(10, PlayerId::Sendou(1));
    roster.add_team(20, PlayerId::Sendou(2));
    roster.add_team(30, PlayerId::Sendou(3));
    let rounds = SwissRounds { rounds: vec![(100, 1)], round_count: 3 };
    let mut state = setup(&baseline);
    let matches = vec![
        completed_match(7, 10, 20, true),
        completed_match(8, 10, 30, false),
    ];
    let (working, events) =
        run_replay_cycle(&baseline, &matches, &roster, &rounds, &mut state, &rate_model)
            .expect("replay");
    assert_eq!(events.len(), 4);
    let (a_after_first, _) = rate_model(
        player(1, 1500).rating,
        player(2, 1400).rating,
        true,
    );
    let (a_after_second, _) = rate_model(a_after_first, player(3, 1450).rating, false);
    assert_eq!(
        working.get(&PlayerId::Sendou(1)).unwrap().rating,
        a_after_second
    );
}

#[test]
fn replay_faults_are_reported() {
    let (baseline, roster, rounds) = two_player_fixture();

    // a completed match naming an unknown team
    let mut state = setup(&baseline);
    let unknown_team = vec![completed_match(7, 99, 20, true)];
    assert_eq!(
        run_replay_cycle(&baseline, &unknown_team, &roster, &rounds, &mut state, &rate_model)
            .unwrap_err(),
        ReplayFault::UnknownTeam
    );

    // a ready bye with no opponent entry at all
    let mut state = setup(&baseline);
    let no_opponent = vec![TournamentMatch {
        id: 3,
        opponent1: None,
        opponent2: None,
        round_id: 100,
        status: TournamentMatchStatus::Ready,
    }];
    assert_eq!(
        run_replay_cycle(&baseline, &no_opponent, &roster, &rounds, &mut state, &rate_model)
            .unwrap_err(),
        ReplayFault::MissingOpponent
    );

    // a completed match whose outcome is missing
    let mut state = setup(&baseline);
    let mut missing_result = completed_match(4, 10, 20, true);
    missing_result.opponent1 = Some(TournamentMatchOpponent { id: Some(10), result: None });
    assert_eq!(
        run_replay_cycle(
            &baseline,
            &vec![missing_result],
            &roster,
            &rounds,
            &mut state,
            &rate_model
        )
        .unwrap_err(),
        ReplayFault::MissingResult
    );

    // the roster names a player the table does not hold
    let mut state = setup(&baseline);
    let mut bad_roster = Roster::new();
    bad_roster.add_team(10, PlayerId::Sendou(77));
    bad_roster.add_team(20, PlayerId::Sendou(2));
    assert_eq!(
        run_replay_cycle(
            &baseline,
            &vec![completed_match(5, 10, 20, true)],
            &bad_roster,
            &rounds,
            &mut state,
            &rate_model
        )
        .unwrap_err(),
        ReplayFault::UnknownPlayer
    );

    // a tournament player with no language recorded
    let mut silent = SwitzerlandPlayerMap::new();
    let mut p = player(1, 1500);
    p.language = None;
    silent.insert(p);
    silent.insert(player(2, 1400));
    let mut state = setup(&silent);
    assert_eq!(
        run_replay_cycle(
            &silent,
            &vec![completed_match(6, 10, 20, true)],
            &roster,
            &rounds,
            &mut state,
            &rate_model
        )
        .unwrap_err(),
        ReplayFault::MissingLanguage
    );

    // a tracked rating missing from the rank index is a broken invariant
    let mut state = setup(&baseline);
    state.ranks = RankVec::new(Vec::new());
    assert_eq!(
        run_replay_cycle(
            &baseline,
            &vec![completed_match(7, 10, 20, true)],
            &roster,
            &rounds,
            &mut state,
            &rate_model
        )
        .unwrap_err(),
        ReplayFault::RankIndexMiss
    );
}
