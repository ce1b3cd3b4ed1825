use switzerland_power_calc::alignment::{Alignment, HorizontalAlignment, VerticalAlignment};
use switzerland_power_calc::console::{parse_command, ConsoleCommand};
use switzerland_power_calc::poller::{poll_step, FetchOutcome, PollAction};
use switzerland_power_calc::animation_lang::{full_width_number, AnimationLanguage};
use switzerland_power_calc::database::Database;
use switzerland_power_calc::db::{PlayerId, SwitzerlandPlayer, SwitzerlandPlayerMap};
use switzerland_power_calc::format::{
    format_link, format_player_rank_summary, format_rank_difference, format_sp, FormattedHint,
};
use switzerland_power_calc::lang::{CommandIdDisplay, Language};
use switzerland_power_calc::notify::{plan_notification, PowerStatusPlan};
use switzerland_power_calc::rating::Rating;
use switzerland_power_calc::reconcile::DeltaEvent;
use switzerland_power_calc::schema::{
    TournamentContext, TournamentData, TournamentMatchStatus, TournamentRound, TournamentStage,
    TournamentStageSettings, TournamentStageSwissSettings, TournamentTeam, TournamentTeamMember,
};
use switzerland_power_calc::status::{MatchOutcome, SetScore};
use switzerland_power_calc::strutil::u32_to_string;
use switzerland_power_calc::teams::{apply_migration, initialize_teams, startup_delay, swiss_rounds};

fn named_player(id: u32, name: &str, rating_points: i64, rank: Option<u32>) -> SwitzerlandPlayer {
    SwitzerlandPlayer {
        id: PlayerId::Sendou(id),
        display_name: Some(name.to_string()),
        language: Some(Language::EnglishUnitedStates),
        rank,
        rating: Rating {
            value: rating_points * 1_000_000,
            deviation: 350_000_000,
            volatility: 60_000,
        },
        unrated: false,
    }
}

#[test]
fn language_round_trips() {
    for lang in Language::supported_languages() {
        assert_eq!(Language::from_id(lang.id()), Some(lang));
        if let Some(discord) = lang.discord_id() {
            // every advertised locale maps back to some language
            assert!(Language::from_discord_id(discord).is_some());
        }
    }
    assert_eq!(Language::from_id("xx-YY"), None);
    assert_eq!(Language::guess_from_country("DE"), Some(Language::German));
    assert_eq!(Language::guess_from_country("MX"), Some(Language::SpanishLatinAmerica));
    assert_eq!(Language::guess_from_country("ZZ"), None);
    assert_eq!(Language::default(), Language::EnglishUnitedStates);
    assert_eq!(
        Language::EnglishUnitedKingdom.specific_fallback(),
        Some(Language::EnglishUnitedStates)
    );
    assert_eq!(Language::EnglishUnitedStates.fallback(), None);
    assert_eq!(Language::German.fallback(), Some(Language::EnglishUnitedStates));
    assert_eq!(
        Language::FrenchCanada.fallback(),
        Some(Language::FrenchFrance)
    );
    assert_eq!(Language::Japanese.name(), "日本語");
    assert_eq!(
        Language::ChineseTaiwan.to_animation_language(),
        AnimationLanguage::TWzh
    );
}

#[test]
fn number_and_rank_rendering() {
    assert_eq!(u32_to_string(0), "0");
    assert_eq!(u32_to_string(40127), "40127");
    assert_eq!(full_width_number(0), "０");
    assert_eq!(full_width_number(2067), "２０６７");
    assert_eq!(format_sp(1_500_000_000), "1500.0");
    assert_eq!(format_sp(1_499_950_000), "1500.0");
    assert_eq!(format_sp(1_499_949_999), "1499.9");
    assert_eq!(format_sp(-1_250_000), "-1.3");
    assert_eq!(format_rank_difference(3, 3), "#3 ⇒");
    assert_eq!(format_rank_difference(5, 2), "#5 → #2 ⇑");
    assert_eq!(format_rank_difference(2, 5), "#2 → #5 ⇓");
}

#[test]
fn player_summary_rendering() {
    let old = named_player(1, "ada", 1500, Some(2));
    let new = named_player(1, "ada", 1563, Some(1));
    assert_eq!(
        format_player_rank_summary(Some(&old), &new, true),
        "1500.0 SP → 1563.0 SP (+63.0); #2 → #1 ⇑"
    );
    assert_eq!(
        format_player_rank_summary(None, &new, true),
        "1563.0 SP; #1"
    );
    assert_eq!(
        format_player_rank_summary(Some(&old), &new, false),
        "1500.0 SP → 1563.0 SP (+63.0)"
    );
}

#[test]
fn link_formatting_depends_on_emoji() {
    assert_eq!(
        format_link("vs ada", "<https://example.net/m/1>"),
        "[vs ada](<https://example.net/m/1>)"
    );
    assert_eq!(
        format_link("vs 🔥ada", "<https://example.net/m/1>"),
        "vs 🔥ada (<https://example.net/m/1>)"
    );
}

#[test]
fn hint_is_dimmed_for_display() {
    let hint = FormattedHint::new("poll".to_string());
    assert_eq!(hint.display(), "\u{1b}[2mpoll\u{1b}[0m");
    assert_eq!(hint.completion(), Some("poll"));
}

#[test]
fn localized_command_names_fall_back() {
    assert_eq!(Language::EnglishUnitedStates.language_command_name(), "language");
    assert_eq!(Language::German.language_command_name(), "sprache");
    // no translation of their own: the regional variant provides one
    assert_eq!(Language::SpanishLatinAmerica.language_command_name(), "lengua");
    assert_eq!(Language::FrenchCanada.language_command_name(), "langue");
    // no translation and no variant: the default language provides it
    assert_eq!(Language::EnglishUnitedKingdom.language_command_name(), "language");
    assert_eq!(
        Language::EnglishUnitedStates.changed_language(Language::German),
        "Bot language changed to Deutsch"
    );
    let cmd = CommandIdDisplay("language".to_string(), 7);
    assert_eq!(
        Language::EnglishUnitedStates.language_command_explanation(&cmd),
        "You can use the </language:7> command to change languages for these messages. (Translations are best effort and some or most may be missing.)"
    );
}

#[test]
fn command_mention_rendering() {
    let cmd = CommandIdDisplay("language".to_string(), 42);
    assert_eq!(cmd.render(), "</language:42>");
}

#[test]
fn database_sort_ranks_and_map_round_trip() {
    let mut db = Database::new();
    db.players.push(named_player(1, "ada", 1400, None));
    db.players.push(named_player(2, "bo", 1600, None));
    db.players.push(named_player(3, "cy", 1500, None));
    db.sort();
    assert_eq!(db.players[0].id, PlayerId::Sendou(2));
    assert_eq!(db.players[1].id, PlayerId::Sendou(3));
    assert_eq!(db.players[2].id, PlayerId::Sendou(1));
    assert_eq!(db.players[0].rank, Some(1));
    assert_eq!(db.players[2].rank, Some(3));

    let map = db.into_map();
    assert_eq!(map.len(), 3);
    assert_eq!(
        map.get(&PlayerId::Sendou(3)).unwrap().rating.value,
        1_500_000_000
    );

    // unrated seeds are dropped at finalization
    let mut map2 = SwitzerlandPlayerMap::new();
    map2.insert(named_player(1, "ada", 1400, None));
    let mut seed = named_player(9, "zed", 1500, None);
    seed.unrated = true;
    map2.insert(seed);
    let finalized = Database::new_from_map(map2);
    assert_eq!(finalized.players.len(), 1);
    assert_eq!(finalized.players[0].id, PlayerId::Sendou(1));
    assert_eq!(finalized.players[0].rank, Some(1));
}

fn query_fixture() -> Database {
    let mut db = Database::new();
    db.players.push(named_player(31, "x", 1600, None));
    db.players.push(named_player(32, "ab", 1500, None));
    db.sort();
    db
}

#[test]
fn query_matches_by_id_and_name() {
    // lowercasing matters: "AB" must reach the lowered name "ab"
    let found = query_fixture().query(Some(&vec!["AB".to_string()]), false);
    assert_eq!(found.len(), 1);
    assert_eq!(found[0].id, PlayerId::Sendou(32));

    // a numeric query resolves by bracket id when allowed
    let by_id = query_fixture().query(Some(&vec!["31".to_string()]), true);
    assert_eq!(by_id.len(), 1);
    assert_eq!(by_id[0].id, PlayerId::Sendou(31));

    // results come back in rank order
    let both = query_fixture().query(Some(&vec!["ab".to_string(), "x".to_string()]), false);
    assert_eq!(both.len(), 2);
    assert_eq!(both[0].id, PlayerId::Sendou(31));
    assert_eq!(both[1].id, PlayerId::Sendou(32));

    // no queries: everything
    let all = query_fixture().query(None, true);
    assert_eq!(all.len(), 2);
}

fn team(id: u32, user_id: u32, name: &str, ordinal_points: i64) -> TournamentTeam {
    TournamentTeam {
        id,
        name: format!("team-{id}"),
        members: vec![TournamentTeamMember {
            user_id,
            username: name.to_string(),
            discord_id: 1000 + user_id as u64,
            country: Some("CH".to_string()),
        }],
        check_ins: vec![],
        avg_seeding_skill_ordinal: ordinal_points * 1_000_000,
    }
}

#[test]
fn initialize_teams_seeds_new_players() {
    let context = TournamentContext {
        id: 5,
        name: "cup".to_string(),
        start_time: 0,
        is_finalized: false,
        teams: vec![team(10, 1, "ada", 4), team(20, 2, "bo", 90)],
    };
    let mut players = SwitzerlandPlayerMap::new();
    players.insert(named_player(1, "old-ada", 1700, None));
    let roster = initialize_teams(&context, &mut players);
    assert_eq!(roster.len(), 2);

    // the known player keeps the rating but gets the fresh name
    let ada = players.get(&PlayerId::Sendou(1)).unwrap();
    assert_eq!(ada.rating.value, 1_700_000_000);
    assert_eq!(ada.display_name.as_deref(), Some("ada"));
    assert!(!ada.unrated);

    // the new player is seeded from the clamped ordinal: 90 clamps to 40
    let bo = players.get(&PlayerId::Sendou(2)).unwrap();
    assert_eq!(bo.rating.value, 1_900_000_000);
    assert_eq!(bo.rating.deviation, 200_000_000);
    assert!(bo.unrated);
}

#[test]
fn swiss_rounds_are_ordered() {
    let data = TournamentData {
        stages: vec![
            TournamentStage {
                id: 1,
                name: "finals".to_string(),
                number: 2,
                settings: TournamentStageSettings::SingleElimination,
            },
            TournamentStage {
                id: 2,
                name: "swiss".to_string(),
                number: 1,
                settings: TournamentStageSettings::Swiss {
                    swiss: TournamentStageSwissSettings { round_count: 3 },
                },
            },
        ],
        groups: vec![],
        rounds: vec![
            TournamentRound { id: 52, group_id: 9, number: 2, stage_id: 2 },
            TournamentRound { id: 51, group_id: 9, number: 1, stage_id: 2 },
            TournamentRound { id: 90, group_id: 8, number: 1, stage_id: 1 },
            TournamentRound { id: 53, group_id: 9, number: 3, stage_id: 2 },
        ],
        matches: vec![],
    };
    let sr = swiss_rounds(&data).expect("swiss stage");
    assert_eq!(sr.round_count, 3);
    assert_eq!(sr.rounds, vec![(51, 1), (52, 2), (53, 3)]);
    assert_eq!(sr.calc_round(52), Some(2));
    assert_eq!(sr.calc_round(90), None);
}

#[test]
fn startup_delay_and_status_codes() {
    assert_eq!(startup_delay(1000, 400), 600);
    assert_eq!(startup_delay(400, 1000), 0);
    assert_eq!(TournamentMatchStatus::Completed.code(), 4);
    assert_eq!(
        TournamentMatchStatus::from_code(2),
        Some(TournamentMatchStatus::Ready)
    );
    assert_eq!(TournamentMatchStatus::from_code(9), None);
}

#[test]
fn migration_rewrites_identities() {
    let mut players = SwitzerlandPlayerMap::new();
    let mut legacy = named_player(0, "old name", 1550, None);
    legacy.id = PlayerId::LegacyName("old name".to_string());
    players.insert(legacy);
    players.insert(named_player(2, "bo", 1500, None));

    let moved = apply_migration(
        &mut players,
        &PlayerId::LegacyName("old name".to_string()),
        PlayerId::Sendou(42),
        Some("sendou name".to_string()),
    );
    assert!(moved);
    assert!(players.get(&PlayerId::LegacyName("old name".to_string())).is_none());
    let migrated = players.get(&PlayerId::Sendou(42)).unwrap();
    assert_eq!(migrated.rating.value, 1_550_000_000);
    assert_eq!(migrated.display_name.as_deref(), Some("sendou name"));

    let missing = apply_migration(
        &mut players,
        &PlayerId::LegacyName("nobody".to_string()),
        PlayerId::Sendou(43),
        None,
    );
    assert!(!missing);
}

#[test]
fn notification_plans() {
    let event = DeltaEvent {
        player: PlayerId::Sendou(1),
        match_id: 7,
        team: 10,
        opponent_team: Some(20),
        result: None,
        calc_round: Some(1),
        old_rating: Rating { value: 1_500_000_000, deviation: 0, volatility: 0 },
        new_rating: Rating { value: 1_563_000_000, deviation: 0, volatility: 0 },
        old_rank: Some(2),
        new_rank: 1,
        language: Language::EnglishUnitedStates,
        bye: false,
    };
    // a brand-new entrant mid-calculation
    assert_eq!(
        plan_notification(&event, false, 3, true),
        Some(PowerStatusPlan::Calculating { progress: 1, total: 3 })
    );
    // the last calculation round reveals the power
    let last = DeltaEvent { calc_round: Some(3), ..event_clone(&event) };
    assert_eq!(
        plan_notification(&last, false, 3, true),
        Some(PowerStatusPlan::Calculated {
            calculation_rounds: 3,
            power: 1_563_000_000,
            rank: 1
        })
    );
    // an established entrant sees the played set
    assert_eq!(
        plan_notification(&event, true, 3, true),
        Some(PowerStatusPlan::SetPlayed {
            old_power: 1_500_000_000,
            new_power: 1_563_000_000,
            old_rank: 2,
            new_rank: 1
        })
    );
    // a bye for an established entrant sends nothing
    let bye = DeltaEvent { opponent_team: None, calc_round: None, ..event_clone(&event) };
    assert_eq!(plan_notification(&bye, true, 3, true), None);
    // no channel, no message
    assert_eq!(plan_notification(&event, true, 3, false), None);
}

fn event_clone(e: &DeltaEvent) -> DeltaEvent {
    DeltaEvent {
        player: e.player.clone(),
        match_id: e.match_id,
        team: e.team,
        opponent_team: e.opponent_team,
        result: e.result,
        calc_round: e.calc_round,
        old_rating: e.old_rating,
        new_rating: e.new_rating,
        old_rank: e.old_rank,
        new_rank: e.new_rank,
        language: e.language,
        bye: e.bye,
    }
}

#[test]
fn set_score_counts_wins_and_losses() {
    let set = vec![
        MatchOutcome::Win,
        MatchOutcome::Lose,
        MatchOutcome::Win,
        MatchOutcome::Unplayed,
        MatchOutcome::Unplayed,
    ];
    assert_eq!(set.set_score(), (2, 1));
    assert_eq!(MatchOutcome::default(), MatchOutcome::Unplayed);
}

#[test]
fn poll_policy() {
    assert_eq!(poll_step(1, FetchOutcome::Success), PollAction::Return);
    assert_eq!(poll_step(1, FetchOutcome::Decode), PollAction::Return);
    assert_eq!(poll_step(1, FetchOutcome::Retryable), PollAction::RetryAfterSecs(2));
    assert_eq!(poll_step(2, FetchOutcome::Retryable), PollAction::RetryAfterSecs(4));
    assert_eq!(poll_step(3, FetchOutcome::Retryable), PollAction::RetryAfterSecs(8));
    assert_eq!(poll_step(4, FetchOutcome::Retryable), PollAction::RetryAfterSecs(16));
    assert_eq!(poll_step(5, FetchOutcome::Retryable), PollAction::Return);
}

#[test]
fn console_commands() {
    assert_eq!(parse_command("help"), ConsoleCommand::Help);
    assert_eq!(parse_command("?"), ConsoleCommand::Help);
    assert_eq!(parse_command("poll"), ConsoleCommand::Poll);
    assert_eq!(parse_command("skip 412"), ConsoleCommand::Skip(412));
    assert_eq!(parse_command("skip nonsense"), ConsoleCommand::SkipInvalid);
    assert_eq!(parse_command("skip"), ConsoleCommand::Unknown);
    assert_eq!(parse_command("quit please"), ConsoleCommand::Unknown);
    assert_eq!(parse_command(""), ConsoleCommand::Unknown);
}

#[test]
fn alignment_offsets() {
    assert_eq!(HorizontalAlignment::Left.align(10), 0);
    assert_eq!(HorizontalAlignment::Center.align(10), 5);
    assert_eq!(HorizontalAlignment::Right.align(10), 10);
    assert_eq!(HorizontalAlignment::Center.align(-7), -3);
    assert_eq!(HorizontalAlignment::Right.align(-7), -7);
    assert_eq!(VerticalAlignment::Middle.align(7), 3);
    assert_eq!(VerticalAlignment::Middle.align(-9), -4);
    let a = Alignment::new(HorizontalAlignment::Center, VerticalAlignment::Bottom);
    assert_eq!(a.horizontal.align(4), 2);
    assert_eq!(a.vertical.align(4), 4);
    let c = Alignment::center();
    assert_eq!(c.vertical.align(9), 4);
}
