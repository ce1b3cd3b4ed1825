use skillratings::glicko2::{glicko2, Glicko2Config, Glicko2Rating};
use skillratings::Outcomes;
use switzerland_power_calc::rank_vec::RankVec;
use switzerland_power_calc::Rating;

fn to_fixed(r: Glicko2Rating) -> Rating {
    Rating {
        value: (r.rating * 1_000_000.0).round() as i64,
        deviation: (r.deviation * 1_000_000.0).round() as i64,
        volatility: (r.volatility * 1_000_000.0).round() as i64,
    }
}

#[test]
fn rank_vec_test() {
    let mut rate1 = Glicko2Rating::new();
    let mut rate2 = Glicko2Rating::new();
    let mut rate3 = Glicko2Rating::new();
    let mut rate4 = Glicko2Rating::new();
    let rate5 = Glicko2Rating::new();

    let mut ranks = RankVec::new(vec![
        to_fixed(rate1),
        to_fixed(rate2),
        to_fixed(rate3),
        to_fixed(rate4),
        to_fixed(rate5),
    ]);

    assert_eq!(ranks.get_rank(to_fixed(rate1)), 0);
    assert_eq!(ranks.get_rank(to_fixed(rate2)), 0);
    assert_eq!(ranks.get_rank(to_fixed(rate3)), 0);
    assert_eq!(ranks.get_rank(to_fixed(rate4)), 0);
    assert_eq!(ranks.get_rank(to_fixed(rate5)), 0);

    {
        let (new_rate1, new_rate2) =
            glicko2(&rate1, &rate2, &Outcomes::LOSS, &Glicko2Config::new());

        assert_eq!(ranks.get_rank_and_remove(to_fixed(rate1)), 0);
        assert_eq!(ranks.insert_and_get_rank(to_fixed(new_rate1)), 4);
        rate1 = new_rate1;

        assert_eq!(ranks.get_rank_and_remove(to_fixed(rate2)), 0);
        assert_eq!(ranks.insert_and_get_rank(to_fixed(new_rate2)), 0);
        rate2 = new_rate2;
    }

    {
        let (new_rate3, new_rate4) =
            glicko2(&rate3, &rate4, &Outcomes::WIN, &Glicko2Config::new());

        assert_eq!(ranks.get_rank_and_remove(to_fixed(rate3)), 1);
        assert_eq!(ranks.insert_and_get_rank(to_fixed(new_rate3)), 0);
        rate3 = new_rate3;

        assert_eq!(ranks.get_rank_and_remove(to_fixed(rate4)), 2);
        assert_eq!(ranks.insert_and_get_rank(to_fixed(new_rate4)), 3);
        rate4 = new_rate4;
    }

    assert_eq!(ranks.get_rank(to_fixed(rate1)), 3);
    assert_eq!(ranks.get_rank(to_fixed(rate2)), 0);
    assert_eq!(ranks.get_rank(to_fixed(rate3)), 0);
    assert_eq!(ranks.get_rank(to_fixed(rate4)), 3);
    assert_eq!(ranks.get_rank(to_fixed(rate5)), 2);
}

#[test]
fn rank_of_unstored_value() {
    let mk = |v: i64| Rating {
        value: v,
        deviation: 0,
        volatility: 0,
    };
    let mut ranks = RankVec::new(vec![mk(1_500_000_000), mk(1_400_000_000)]);
    // a value not stored can still be ranked
    assert_eq!(ranks.get_rank(mk(1_450_000_000)), 1);
    assert_eq!(ranks.get_rank(mk(1_600_000_000)), 0);
    assert_eq!(ranks.get_rank(mk(1_000_000_000)), 2);
    // duplicates are kept
    assert_eq!(ranks.insert_and_get_rank(mk(1_500_000_000)), 0);
    assert_eq!(ranks.len(), 3);
    assert!(ranks.contains(mk(1_500_000_000)));
    assert_eq!(ranks.get_rank_and_remove(mk(1_500_000_000)), 0);
    assert!(ranks.contains(mk(1_500_000_000)));
    assert_eq!(ranks.len(), 2);
}

#[test]
fn rank_monotonicity_scenario() {
    let mk = |v: i64| Rating {
        value: v,
        deviation: 0,
        volatility: 0,
    };
    let mut ranks = RankVec::new(vec![mk(1_500_000_000), mk(1_400_000_000)]);
    // a rating strictly greater than all others gets 1-based rank 1
    assert_eq!(ranks.insert_and_get_rank(mk(1_700_000_000)), 0);
    assert_eq!(ranks.rank_of(mk(1_700_000_000)), 1);
    // once the best leaves, the second best ranks first
    assert_eq!(ranks.get_rank_and_remove(mk(1_700_000_000)), 0);
    assert_eq!(ranks.rank_of(mk(1_500_000_000)), 1);
    assert_eq!(ranks.rank_of(mk(1_400_000_000)), 2);
}
