//! Properties of the replay fold that hold for every update sequence: replay
//! determinism, exactly-once side effects, bye idempotence and exclusion.
//!
//! `run_replay_cycle` ties each reconciliation pass to `replay_seq`, so each
//! law proved here holds of every pass the reconciler runs.

use vstd::prelude::*;
use crate::rank_vec::count_gt;
use crate::rating::Rating;
use crate::reconcile::{
    consumes_update, first_update, placeholder_update, replay_seq, round_number,
    spec_replay_step, spec_resolve, spec_side_update, step_rate_inputs, updates_follow_model,
    updates_needed, DeltaEvent, ReplayCfg, ReplayFault, ReplayState,
};
use crate::schema::{SendouId, TournamentMatch, TournamentMatchStatus};

verus! {

/// A rating model whose contract admits exactly one result per input: what
/// a pure pairwise update function promises.
pub open spec fn functional_model<F: Fn(Rating, Rating, bool) -> (Rating, Rating)>(
    rate: F,
) -> bool {
    forall|a: Rating, b: Rating, w: bool, o1: (Rating, Rating), o2: (Rating, Rating)|
        call_ensures(rate, (a, b, w), o1) && call_ensures(rate, (a, b, w), o2) ==> o1 == o2
}

/// Every match id appears at most once in the snapshot's match list, as a
/// bracket lists each match once.
pub open spec fn distinct_match_ids(ms: Seq<TournamentMatch>) -> bool {
    forall|i: int, j: int| 0 <= i < j < ms.len() ==> ms[i].id != ms[j].id
}

/// A replay leaves the processed-set membership of an id untouched when no
/// match in the list carries that id.
pub proof fn lemma_processed_frame(
    cfg: ReplayCfg,
    st: ReplayState,
    ms: Seq<TournamentMatch>,
    ups: Seq<(Rating, Rating)>,
    st1: ReplayState,
    evs: Seq<DeltaEvent>,
    x: SendouId,
)
    requires
        replay_seq(cfg, st, ms, ups) == Ok::<(ReplayState, Seq<DeltaEvent>), ReplayFault>(
            (st1, evs),
        ),
        forall|j: int| 0 <= j < ms.len() ==> ms[j].id != x,
    ensures
        st1.processed.contains(x) == st.processed.contains(x),
    decreases ms.len(),
{
    if ms.len() == 0 {
    } else {
        let m = ms[0];
        let ms1 = ms.subrange(1, ms.len() as int);
        let consumed = consumes_update(cfg, m);
        let upd = if consumed {
            first_update(ups)
        } else {
            placeholder_update()
        };
        let ups1 = if consumed {
            ups.subrange(1, ups.len() as int)
        } else {
            ups
        };
        match spec_replay_step(cfg, st, m, upd) {
            Err(_) => {
                assert(false);
            },
            Ok((sta, _evs0)) => {
                assert(sta.processed.contains(x) == st.processed.contains(x));
                match replay_seq(cfg, sta, ms1, ups1) {
                    Err(_) => {
                        assert(false);
                    },
                    Ok((stb, evsr)) => {
                        lemma_processed_frame(cfg, sta, ms1, ups1, stb, evsr, x);
                        assert(stb == st1);
                    },
                }
            },
        }
    }
}

/// Replay determinism. The rating model is a pure function of the two
/// ratings and the outcome, so two passes over the same snapshot from the
/// same baseline see the same update values: this lemma replays the same
/// match list with the same updates a second time, resetting only the
/// working table to the baseline and keeping the processed set, the rank
/// index and the last-known ranks from the first pass. The second pass
/// reproduces the first pass's working table exactly, leaves all persistent
/// state as it was, and emits no delta event.
pub proof fn lemma_replay_determinism<F: Fn(Rating, Rating, bool) -> (Rating, Rating)>(
    cfg: ReplayCfg,
    st: ReplayState,
    ms: Seq<TournamentMatch>,
    ups: Seq<(Rating, Rating)>,
    st1: ReplayState,
    evs1: Seq<DeltaEvent>,
    rate: F,
)
    requires
        replay_seq(cfg, st, ms, ups) == Ok::<(ReplayState, Seq<DeltaEvent>), ReplayFault>(
            (st1, evs1),
        ),
        updates_follow_model(cfg, st, ms, ups, rate),
        distinct_match_ids(ms),
    ensures
        replay_seq(
            cfg,
            ReplayState {
                table: st.table,
                processed: st1.processed,
                ranks: st1.ranks,
                last_ranks: st1.last_ranks,
            },
            ms,
            ups,
        ) == Ok::<(ReplayState, Seq<DeltaEvent>), ReplayFault>(
            (st1, Seq::<DeltaEvent>::empty()),
        ),
        updates_follow_model(
            cfg,
            ReplayState {
                table: st.table,
                processed: st1.processed,
                ranks: st1.ranks,
                last_ranks: st1.last_ranks,
            },
            ms,
            ups,
            rate,
        ),
    decreases ms.len(),
{
    let st2 = ReplayState {
        table: st.table,
        processed: st1.processed,
        ranks: st1.ranks,
        last_ranks: st1.last_ranks,
    };
    if ms.len() == 0 {
        assert(st1 == st);
        assert(st2 == st1);
    } else {
        let m = ms[0];
        let ms1 = ms.subrange(1, ms.len() as int);
        let consumed = consumes_update(cfg, m);
        let upd = if consumed {
            first_update(ups)
        } else {
            placeholder_update()
        };
        let ups1 = if consumed {
            ups.subrange(1, ups.len() as int)
        } else {
            ups
        };
        assert(forall|j: int| 0 <= j < ms1.len() ==> ms1[j].id != m.id);
        match spec_replay_step(cfg, st, m, upd) {
            Err(_) => {
                assert(false);
            },
            Ok((sta, _evs0)) => {
                match replay_seq(cfg, sta, ms1, ups1) {
                    Err(_) => {
                        assert(false);
                    },
                    Ok((stb, evsr)) => {
                        assert(stb == st1);
                        assert(distinct_match_ids(ms1));
                        assert(updates_follow_model(cfg, sta, ms1, ups1, rate));
                        lemma_replay_determinism(cfg, sta, ms1, ups1, st1, evsr, rate);
                        let sta2_expect = ReplayState {
                            table: sta.table,
                            processed: st1.processed,
                            ranks: st1.ranks,
                            last_ranks: st1.last_ranks,
                        };
                        // run the second pass one step and show it reaches
                        // `sta2_expect` without an event
                        if cfg.excluded.contains(m.id) {
                            assert(sta == st);
                            assert(spec_replay_step(cfg, st2, m, upd) == Ok::<
                                (ReplayState, Seq<DeltaEvent>),
                                ReplayFault,
                            >((st2, Seq::empty())));
                            assert(st2 == sta2_expect);
                        } else if m.spec_is_bye() {
                            // the first pass left the id processed, and no
                            // later match touches it
                            assert(sta.processed.contains(m.id));
                            lemma_processed_frame(cfg, sta, ms1, ups1, st1, evsr, m.id);
                            assert(st1.processed.contains(m.id));
                            assert(spec_replay_step(cfg, st2, m, upd) == Ok::<
                                (ReplayState, Seq<DeltaEvent>),
                                ReplayFault,
                            >((st2, Seq::empty())));
                            assert(sta.table == st.table);
                            assert(st2 == sta2_expect);
                        } else if m.status != TournamentMatchStatus::Completed {
                            assert(!sta.processed.contains(m.id));
                            lemma_processed_frame(cfg, sta, ms1, ups1, st1, evsr, m.id);
                            assert(!st1.processed.contains(m.id));
                            assert(st1.processed.remove(m.id) =~= st1.processed);
                            assert(spec_replay_step(cfg, st2, m, upd) == Ok::<
                                (ReplayState, Seq<DeltaEvent>),
                                ReplayFault,
                            >(
                                (
                                    ReplayState { processed: st1.processed.remove(m.id), ..st2 },
                                    Seq::empty(),
                                ),
                            ));
                            assert(ReplayState {
                                processed: st1.processed.remove(m.id),
                                ..st2
                            } == sta2_expect);
                        } else {
                            // completed: the second pass sees it processed,
                            // rewrites the same ratings and emits nothing
                            assert(sta.processed.contains(m.id));
                            lemma_processed_frame(cfg, sta, ms1, ups1, st1, evsr, m.id);
                            assert(st1.processed.contains(m.id));
                            assert(st1.processed.insert(m.id) =~= st1.processed);
                            let stp1 = ReplayState {
                                processed: st.processed.insert(m.id),
                                ..st
                            };
                            let stp2 = ReplayState {
                                processed: st1.processed.insert(m.id),
                                ..st2
                            };
                            assert(stp2.table == stp1.table);
                            match spec_resolve(cfg.roster, stp1.table, m.opponent1) {
                                Err(_) => {
                                    assert(false);
                                },
                                Ok(s1) => {
                                    match spec_resolve(cfg.roster, stp1.table, m.opponent2) {
                                        Err(_) => {
                                            assert(false);
                                        },
                                        Ok(s2) => {
                                            assert(spec_resolve(
                                                cfg.roster,
                                                stp2.table,
                                                m.opponent1,
                                            ) == Ok::<_, ReplayFault>(s1));
                                            assert(spec_resolve(
                                                cfg.roster,
                                                stp2.table,
                                                m.opponent2,
                                            ) == Ok::<_, ReplayFault>(s2));
                                            assert(s1.result is Some);
                                            let calc = crate::reconcile::round_number(
                                                cfg.rounds,
                                                m.round_id,
                                            );
                                            let is_new1 = !st.processed.contains(m.id);
                                            match spec_side_update(
                                                stp1.table,
                                                stp1.ranks,
                                                stp1.last_ranks,
                                                m.id,
                                                calc,
                                                s1,
                                                s2.team,
                                                upd.0,
                                                is_new1,
                                            ) {
                                                Err(_) => {
                                                    assert(false);
                                                },
                                                Ok((t2, r2, l2, _e1)) => {
                                                    match spec_side_update(
                                                        t2,
                                                        r2,
                                                        l2,
                                                        m.id,
                                                        calc,
                                                        s2,
                                                        s1.team,
                                                        upd.1,
                                                        is_new1,
                                                    ) {
                                                        Err(_) => {
                                                            assert(false);
                                                        },
                                                        Ok((t3, _r3, _l3, _e2)) => {
                                                            assert(sta.table == t3);
                                                            // second pass: is_new is false,
                                                            // so both side updates only
                                                            // rewrite the table
                                                            let u2 = spec_side_update(
                                                                stp2.table,
                                                                stp2.ranks,
                                                                stp2.last_ranks,
                                                                m.id,
                                                                calc,
                                                                s1,
                                                                s2.team,
                                                                upd.0,
                                                                false,
                                                            );
                                                            assert(u2 matches Ok(v) && v == (
                                                                t2,
                                                                stp2.ranks,
                                                                stp2.last_ranks,
                                                                Seq::<DeltaEvent>::empty(),
                                                            ));
                                                            let u3 = spec_side_update(
                                                                t2,
                                                                stp2.ranks,
                                                                stp2.last_ranks,
                                                                m.id,
                                                                calc,
                                                                s2,
                                                                s1.team,
                                                                upd.1,
                                                                false,
                                                            );
                                                            assert(u3 matches Ok(v) && v == (
                                                                t3,
                                                                stp2.ranks,
                                                                stp2.last_ranks,
                                                                Seq::<DeltaEvent>::empty(),
                                                            ));
                                                            assert(spec_replay_step(
                                                                cfg,
                                                                st2,
                                                                m,
                                                                upd,
                                                            ) == Ok::<
                                                                (ReplayState, Seq<DeltaEvent>),
                                                                ReplayFault,
                                                            >(
                                                                (
                                                                    ReplayState {
                                                                        table: t3,
                                                                        processed:
                                                                            stp2.processed,
                                                                        ranks: stp2.ranks,
                                                                        last_ranks:
                                                                            stp2.last_ranks,
                                                                    },
                                                                    Seq::<DeltaEvent>::empty()
                                                                        + Seq::<
                                                                        DeltaEvent,
                                                                    >::empty(),
                                                                ),
                                                            ));
                                                            assert(Seq::<DeltaEvent>::empty()
                                                                + Seq::<DeltaEvent>::empty()
                                                                =~= Seq::<DeltaEvent>::empty());
                                                            assert(ReplayState {
                                                                table: t3,
                                                                processed: stp2.processed,
                                                                ranks: stp2.ranks,
                                                                last_ranks: stp2.last_ranks,
                                                            } == sta2_expect);
                                                        },
                                                    }
                                                },
                                            }
                                        },
                                    }
                                },
                            }
                        }
                        // one step of the second pass reaches `sta2_expect`
                        // with no event; the induction hypothesis finishes
                        // the tail
                        assert(spec_replay_step(cfg, st2, m, upd) == Ok::<
                            (ReplayState, Seq<DeltaEvent>),
                            ReplayFault,
                        >((sta2_expect, Seq::empty())));
                        assert(Seq::<DeltaEvent>::empty() + Seq::<DeltaEvent>::empty()
                            =~= Seq::<DeltaEvent>::empty());
                        assert(replay_seq(cfg, st2, ms, ups) == Ok::<
                            (ReplayState, Seq<DeltaEvent>),
                            ReplayFault,
                        >((st1, Seq::empty())));
                        // the second pass consumes the same followed
                        // updates: its step presents the same rating-model
                        // inputs, since both passes read the same table
                        if consumed {
                            assert(step_rate_inputs(cfg, st2, m) == step_rate_inputs(
                                cfg,
                                st,
                                m,
                            ));
                        }
                        assert(updates_follow_model(cfg, st2, ms, ups, rate));
                    },
                }
            },
        }
    }
}

/// What holds of any delta event a replay of `ms` can emit: its match is
/// one of the list and is not excluded, and a bye event changes nothing —
/// old and new rating are equal, and the new rank restates the old one
/// (zero when no rank was known yet).
pub open spec fn event_wf(cfg: ReplayCfg, ms: Seq<TournamentMatch>, e: DeltaEvent) -> bool {
    &&& exists|j: int| 0 <= j < ms.len() && ms[j].id == e.match_id
    &&& !cfg.excluded.contains(e.match_id)
    &&& e.bye ==> {
        &&& e.old_rating == e.new_rating
        &&& match e.old_rank {
            Some(r) => e.new_rank == r,
            None => e.new_rank == 0,
        }
    }
}

/// Bye idempotence and exclusion, event side: every event a replay emits
/// belongs to a non-excluded match of the snapshot, and a bye event carries
/// its rating and rank unchanged.
pub proof fn lemma_event_soundness(
    cfg: ReplayCfg,
    st: ReplayState,
    ms: Seq<TournamentMatch>,
    ups: Seq<(Rating, Rating)>,
    st1: ReplayState,
    evs: Seq<DeltaEvent>,
)
    requires
        replay_seq(cfg, st, ms, ups) == Ok::<(ReplayState, Seq<DeltaEvent>), ReplayFault>(
            (st1, evs),
        ),
    ensures
        forall|k: int| 0 <= k < evs.len() ==> #[trigger] event_wf(cfg, ms, evs[k]),
    decreases ms.len(),
{
    if ms.len() == 0 {
    } else {
        let m = ms[0];
        let ms1 = ms.subrange(1, ms.len() as int);
        let consumed = consumes_update(cfg, m);
        let upd = if consumed {
            first_update(ups)
        } else {
            placeholder_update()
        };
        let ups1 = if consumed {
            ups.subrange(1, ups.len() as int)
        } else {
            ups
        };
        match spec_replay_step(cfg, st, m, upd) {
            Err(_) => {
                assert(false);
            },
            Ok((sta, evs0)) => {
                assert forall|k: int| 0 <= k < evs0.len() implies #[trigger] event_wf(
                    cfg,
                    ms,
                    evs0[k],
                ) by {
                    lemma_step_events(cfg, st, m, upd, sta, evs0);
                    assert(ms[0].id == evs0[k].match_id);
                }
                match replay_seq(cfg, sta, ms1, ups1) {
                    Err(_) => {
                        assert(false);
                    },
                    Ok((stb, evsr)) => {
                        lemma_event_soundness(cfg, sta, ms1, ups1, stb, evsr);
                        assert(evs == evs0 + evsr);
                        assert forall|k: int| 0 <= k < evs.len() implies #[trigger] event_wf(
                            cfg,
                            ms,
                            evs[k],
                        ) by {
                            if k < evs0.len() {
                                assert(evs[k] == evs0[k]);
                            } else {
                                let e = evsr[k - evs0.len()];
                                assert(evs[k] == e);
                                assert(event_wf(cfg, ms1, e));
                                let j = choose|j: int|
                                    0 <= j < ms1.len() && ms1[j].id == e.match_id;
                                assert(ms[j + 1].id == e.match_id);
                            }
                        }
                    },
                }
            },
        }
    }
}

/// The events one replay step emits: each names the stepped match, is not
/// excluded, and a bye event repeats its rating and rank.
pub proof fn lemma_step_events(
    cfg: ReplayCfg,
    st: ReplayState,
    m: TournamentMatch,
    upd: (Rating, Rating),
    sta: ReplayState,
    evs0: Seq<DeltaEvent>,
)
    requires
        spec_replay_step(cfg, st, m, upd) == Ok::<(ReplayState, Seq<DeltaEvent>), ReplayFault>(
            (sta, evs0),
        ),
    ensures
        forall|k: int| 0 <= k < evs0.len() ==> {
            let e = #[trigger] evs0[k];
            &&& e.match_id == m.id
            &&& !cfg.excluded.contains(m.id)
            &&& (e.bye ==> e.old_rating == e.new_rating && match e.old_rank {
                Some(r) => e.new_rank == r,
                None => e.new_rank == 0,
            })
            &&& (e.bye ==> !st.processed.contains(m.id))
        },
{
    if cfg.excluded.contains(m.id) {
    } else if m.spec_is_bye() {
    } else if m.status != TournamentMatchStatus::Completed {
    } else {
        let is_new = !st.processed.contains(m.id);
        let st1 = ReplayState { processed: st.processed.insert(m.id), ..st };
        match spec_resolve(cfg.roster, st1.table, m.opponent1) {
            Err(_) => {},
            Ok(s1) => match spec_resolve(cfg.roster, st1.table, m.opponent2) {
                Err(_) => {},
                Ok(s2) => {
                    if s1.result is Some {
                        let calc = round_number(cfg.rounds, m.round_id);
                        match spec_side_update(
                            st1.table,
                            st1.ranks,
                            st1.last_ranks,
                            m.id,
                            calc,
                            s1,
                            s2.team,
                            upd.0,
                            is_new,
                        ) {
                            Err(_) => {},
                            Ok((t2, r2, l2, ev1)) => {
                                match spec_side_update(
                                    t2,
                                    r2,
                                    l2,
                                    m.id,
                                    calc,
                                    s2,
                                    s1.team,
                                    upd.1,
                                    is_new,
                                ) {
                                    Err(_) => {},
                                    Ok((_t3, _r3, _l3, ev2)) => {
                                        assert(evs0 == ev1 + ev2);
                                        assert(forall|k: int|
                                            0 <= k < ev1.len() ==> (#[trigger] ev1[k]).match_id
                                                == m.id && !ev1[k].bye);
                                        assert(forall|k: int|
                                            0 <= k < ev2.len() ==> (#[trigger] ev2[k]).match_id
                                                == m.id && !ev2[k].bye);
                                    },
                                }
                            },
                        }
                    }
                },
            },
        }
    }
}

/// The matches of a snapshot that are not operator-excluded, in order.
pub open spec fn drop_excluded(cfg: ReplayCfg, ms: Seq<TournamentMatch>) -> Seq<TournamentMatch>
    decreases ms.len(),
{
    if ms.len() == 0 {
        Seq::empty()
    } else {
        let rest = drop_excluded(cfg, ms.subrange(1, ms.len() as int));
        if cfg.excluded.contains(ms[0].id) {
            rest
        } else {
            seq![ms[0]] + rest
        }
    }
}

/// Exclusion: a replay behaves exactly as if the excluded matches were not
/// in the snapshot at all — same working table, same persistent state, same
/// events, same fault if any. An excluded match therefore contributes no
/// rating mutation and no delta event, in this or any later cycle.
pub proof fn lemma_excluded_matches_ignored(
    cfg: ReplayCfg,
    st: ReplayState,
    ms: Seq<TournamentMatch>,
    ups: Seq<(Rating, Rating)>,
)
    ensures
        replay_seq(cfg, st, ms, ups) == replay_seq(cfg, st, drop_excluded(cfg, ms), ups),
    decreases ms.len(),
{
    if ms.len() == 0 {
    } else {
        let m = ms[0];
        let ms1 = ms.subrange(1, ms.len() as int);
        let consumed = consumes_update(cfg, m);
        let upd = if consumed {
            first_update(ups)
        } else {
            placeholder_update()
        };
        let ups1 = if consumed {
            ups.subrange(1, ups.len() as int)
        } else {
            ups
        };
        if cfg.excluded.contains(m.id) {
            assert(spec_replay_step(cfg, st, m, upd) == Ok::<
                (ReplayState, Seq<DeltaEvent>),
                ReplayFault,
            >((st, Seq::empty())));
            lemma_excluded_matches_ignored(cfg, st, ms1, ups);
            match replay_seq(cfg, st, ms1, ups) {
                Err(_) => {},
                Ok((st2, evs2)) => {
                    assert(Seq::<DeltaEvent>::empty() + evs2 =~= evs2);
                },
            }
        } else {
            let kept = drop_excluded(cfg, ms);
            let rest = drop_excluded(cfg, ms1);
            assert(kept == seq![m] + rest);
            assert(kept.len() == 1 + rest.len());
            assert(kept[0] == m);
            assert(kept.subrange(1, kept.len() as int) =~= rest);
            match spec_replay_step(cfg, st, m, upd) {
                Err(_) => {},
                Ok((sta, _evs0)) => {
                    lemma_excluded_matches_ignored(cfg, sta, ms1, ups1);
                },
            }
        }
    }
}

/// How many of the emitted events belong to one match id.
pub open spec fn events_for(evs: Seq<DeltaEvent>, x: SendouId) -> int
    decreases evs.len(),
{
    if evs.len() == 0 {
        0
    } else {
        events_for(evs.drop_last(), x) + if evs.last().match_id == x {
            1int
        } else {
            0int
        }
    }
}

pub proof fn lemma_events_for_add(a: Seq<DeltaEvent>, b: Seq<DeltaEvent>, x: SendouId)
    ensures
        events_for(a + b, x) == events_for(a, x) + events_for(b, x),
    decreases b.len(),
{
    if b.len() == 0 {
        assert(a + b =~= a);
    } else {
        assert((a + b).drop_last() =~= a + b.drop_last());
        assert((a + b).last() == b.last());
        lemma_events_for_add(a, b.drop_last(), x);
    }
}

pub proof fn lemma_events_for_none(evs: Seq<DeltaEvent>, x: SendouId)
    requires
        forall|k: int| 0 <= k < evs.len() ==> (#[trigger] evs[k]).match_id != x,
    ensures
        events_for(evs, x) == 0,
    decreases evs.len(),
{
    if evs.len() > 0 {
        lemma_events_for_none(evs.drop_last(), x);
    }
}

pub proof fn lemma_events_for_all(evs: Seq<DeltaEvent>, x: SendouId)
    requires
        forall|k: int| 0 <= k < evs.len() ==> (#[trigger] evs[k]).match_id == x,
    ensures
        events_for(evs, x) == evs.len(),
    decreases evs.len(),
{
    if evs.len() > 0 {
        lemma_events_for_all(evs.drop_last(), x);
    }
}

/// Exactly-once side effects, one replay pass. For the match at position
/// `j` of a snapshot with distinct match ids:
/// - excluded: no event, and its processed membership is untouched;
/// - a bye: exactly one event if it was not processed yet, none if it was,
///   and it ends processed either way;
/// - below completed: no event, and it ends not processed (a reopened match
///   may be processed again once it recompletes);
/// - completed: exactly one event per entity — two in all — if it was not
///   processed yet, none if it was, and it ends processed.
/// Across cycles this gives exactly-once delivery: the first pass that sees
/// the match completed emits its two events and marks it processed, and by
/// this lemma every later pass that still sees it completed emits none.
pub proof fn lemma_exactly_once(
    cfg: ReplayCfg,
    st: ReplayState,
    ms: Seq<TournamentMatch>,
    ups: Seq<(Rating, Rating)>,
    st1: ReplayState,
    evs: Seq<DeltaEvent>,
    j: int,
)
    requires
        replay_seq(cfg, st, ms, ups) == Ok::<(ReplayState, Seq<DeltaEvent>), ReplayFault>(
            (st1, evs),
        ),
        distinct_match_ids(ms),
        0 <= j < ms.len(),
    ensures
        ({
            let m = ms[j];
            let x = m.id;
            &&& (cfg.excluded.contains(x) ==> events_for(evs, x) == 0 && st1.processed.contains(
                x,
            ) == st.processed.contains(x))
            &&& (!cfg.excluded.contains(x) && m.spec_is_bye() ==> st1.processed.contains(x)
                && events_for(evs, x) == (if st.processed.contains(x) {
                0int
            } else {
                1int
            }))
            &&& (!cfg.excluded.contains(x) && !m.spec_is_bye() && m.status
                != TournamentMatchStatus::Completed ==> events_for(evs, x) == 0
                && !st1.processed.contains(x))
            &&& (!cfg.excluded.contains(x) && !m.spec_is_bye() && m.status
                == TournamentMatchStatus::Completed ==> st1.processed.contains(x) && events_for(
                evs,
                x,
            ) == (if st.processed.contains(x) {
                0int
            } else {
                2int
            }))
        }),
    decreases ms.len(),
{
    let m0 = ms[0];
    let ms1 = ms.subrange(1, ms.len() as int);
    let consumed = consumes_update(cfg, m0);
    let upd = if consumed {
        first_update(ups)
    } else {
        placeholder_update()
    };
    let ups1 = if consumed {
        ups.subrange(1, ups.len() as int)
    } else {
        ups
    };
    let m = ms[j];
    let x = m.id;
    match spec_replay_step(cfg, st, m0, upd) {
        Err(_) => {
            assert(false);
        },
        Ok((sta, evs0)) => {
            match replay_seq(cfg, sta, ms1, ups1) {
                Err(_) => {
                    assert(false);
                },
                Ok((stb, evsr)) => {
                    assert(stb == st1);
                    assert(evs == evs0 + evsr);
                    lemma_events_for_add(evs0, evsr, x);
                    lemma_step_events(cfg, st, m0, upd, sta, evs0);
                    if j == 0 {
                        // the match itself is stepped first; no later match
                        // carries its id
                        assert(forall|k: int| 0 <= k < ms1.len() ==> ms1[k].id != x);
                        lemma_event_soundness(cfg, sta, ms1, ups1, stb, evsr);
                        assert forall|k: int|
                            0 <= k < evsr.len() implies (#[trigger] evsr[k]).match_id != x by {
                            assert(event_wf(cfg, ms1, evsr[k]));
                            let jj = choose|jj: int|
                                0 <= jj < ms1.len() && ms1[jj].id == evsr[k].match_id;
                        }
                        lemma_events_for_none(evsr, x);
                        lemma_processed_frame(cfg, sta, ms1, ups1, st1, evsr, x);
                        assert(forall|k: int|
                            0 <= k < evs0.len() ==> (#[trigger] evs0[k]).match_id == x);
                        lemma_events_for_all(evs0, x);
                        if cfg.excluded.contains(x) {
                            assert(evs0.len() == 0);
                        } else if m.spec_is_bye() {
                            assert(sta.processed.contains(x));
                            if st.processed.contains(x) {
                                assert(evs0.len() == 0);
                            } else {
                                assert(evs0.len() == 1);
                            }
                        } else if m.status != TournamentMatchStatus::Completed {
                            assert(evs0.len() == 0);
                            assert(!sta.processed.contains(x));
                        } else {
                            assert(sta.processed.contains(x));
                            lemma_completed_step_events(cfg, st, m, upd, sta, evs0);
                        }
                    } else {
                        assert(m0.id != x);
                        assert forall|k: int|
                            0 <= k < evs0.len() implies (#[trigger] evs0[k]).match_id != x by {}
                        lemma_events_for_none(evs0, x);
                        assert(sta.processed.contains(x) == st.processed.contains(x));
                        assert(ms1[j - 1] == m);
                        assert(distinct_match_ids(ms1));
                        lemma_exactly_once(cfg, sta, ms1, ups1, st1, evsr, j - 1);
                    }
                },
            }
        },
    }
}

/// A completed, non-excluded match that is newly processed emits exactly
/// two events; one already processed emits none.
pub proof fn lemma_completed_step_events(
    cfg: ReplayCfg,
    st: ReplayState,
    m: TournamentMatch,
    upd: (Rating, Rating),
    sta: ReplayState,
    evs0: Seq<DeltaEvent>,
)
    requires
        spec_replay_step(cfg, st, m, upd) == Ok::<(ReplayState, Seq<DeltaEvent>), ReplayFault>(
            (sta, evs0),
        ),
        !cfg.excluded.contains(m.id),
        !m.spec_is_bye(),
        m.status == TournamentMatchStatus::Completed,
    ensures
        evs0.len() == if st.processed.contains(m.id) {
            0int
        } else {
            2int
        },
{
    let is_new = !st.processed.contains(m.id);
    let st1 = ReplayState { processed: st.processed.insert(m.id), ..st };
    match spec_resolve(cfg.roster, st1.table, m.opponent1) {
        Err(_) => {
            assert(false);
        },
        Ok(s1) => match spec_resolve(cfg.roster, st1.table, m.opponent2) {
            Err(_) => {
                assert(false);
            },
            Ok(s2) => {
                assert(s1.result is Some);
                let calc = round_number(cfg.rounds, m.round_id);
                match spec_side_update(
                    st1.table,
                    st1.ranks,
                    st1.last_ranks,
                    m.id,
                    calc,
                    s1,
                    s2.team,
                    upd.0,
                    is_new,
                ) {
                    Err(_) => {
                        assert(false);
                    },
                    Ok((t2, r2, l2, ev1)) => {
                        match spec_side_update(t2, r2, l2, m.id, calc, s2, s1.team, upd.1, is_new) {
                            Err(_) => {
                                assert(false);
                            },
                            Ok((_t3, _r3, _l3, ev2)) => {
                                assert(evs0 == ev1 + ev2);
                                if is_new {
                                    assert(ev1.len() == 1);
                                    assert(ev2.len() == 1);
                                } else {
                                    assert(ev1.len() == 0);
                                    assert(ev2.len() == 0);
                                }
                            },
                        }
                    },
                }
            },
        },
    }
}

/// A pure rating model admits one followed update sequence per replay: two
/// sequences that both follow the model over the same snapshot from the
/// same state, one of which replays without a fault, are equal.
pub proof fn lemma_followed_updates_unique<F: Fn(Rating, Rating, bool) -> (Rating, Rating)>(
    cfg: ReplayCfg,
    st: ReplayState,
    ms: Seq<TournamentMatch>,
    ups1: Seq<(Rating, Rating)>,
    ups2: Seq<(Rating, Rating)>,
    rate: F,
)
    requires
        functional_model(rate),
        ups1.len() == updates_needed(cfg, ms),
        ups2.len() == updates_needed(cfg, ms),
        updates_follow_model(cfg, st, ms, ups1, rate),
        updates_follow_model(cfg, st, ms, ups2, rate),
        replay_seq(cfg, st, ms, ups1) is Ok,
    ensures
        ups1 == ups2,
    decreases ms.len(),
{
    crate::reconcile::lemma_updates_needed_nonneg(cfg, ms);
    if ms.len() == 0 {
        assert(ups1 =~= ups2);
    } else {
        let m = ms[0];
        let ms1 = ms.subrange(1, ms.len() as int);
        let c0 = consumes_update(cfg, m);
        crate::reconcile::lemma_updates_needed_nonneg(cfg, ms1);
        if c0 {
            assert(ups1.len() >= 1 && ups2.len() >= 1);
            let u1 = ups1[0];
            let u2 = ups2[0];
            assert(first_update(ups1) == u1);
            assert(first_update(ups2) == u2);
            match step_rate_inputs(cfg, st, m) {
                Some(args) => {
                    assert(call_ensures(rate, args, u1));
                    assert(call_ensures(rate, args, u2));
                    assert(u1 == u2);
                    match spec_replay_step(cfg, st, m, u1) {
                        Err(_) => {
                            assert(false);
                        },
                        Ok((sta, _evs0)) => {
                            let t1 = ups1.subrange(1, ups1.len() as int);
                            let t2 = ups2.subrange(1, ups2.len() as int);
                            lemma_followed_updates_unique(cfg, sta, ms1, t1, t2, rate);
                            assert forall|k: int| 0 <= k < ups1.len() implies ups1[k]
                                == ups2[k] by {
                                if k > 0 {
                                    assert(t1[k - 1] == ups1[k]);
                                    assert(t2[k - 1] == ups2[k]);
                                }
                            }
                            assert(ups1 =~= ups2);
                        },
                    }
                },
                None => {
                    // the step faults during resolution, before the model
                    // is consulted, whatever the update value is
                    assert(spec_replay_step(cfg, st, m, u1) is Err);
                    assert(false);
                },
            }
        } else {
            match spec_replay_step(cfg, st, m, placeholder_update()) {
                Err(_) => {
                    assert(false);
                },
                Ok((sta, _evs0)) => {
                    lemma_followed_updates_unique(cfg, sta, ms1, ups1, ups2, rate);
                },
            }
        }
    }
}

/// Two reconciliation passes over the same snapshot from the same baseline
/// and persistent state, driven by the same pure rating model, are equal:
/// their followed update sequences coincide and the replay fold is a
/// function of the updates.
pub proof fn lemma_passes_agree<F: Fn(Rating, Rating, bool) -> (Rating, Rating)>(
    cfg: ReplayCfg,
    st: ReplayState,
    ms: Seq<TournamentMatch>,
    ups1: Seq<(Rating, Rating)>,
    ups2: Seq<(Rating, Rating)>,
    rate: F,
)
    requires
        functional_model(rate),
        ups1.len() == updates_needed(cfg, ms),
        ups2.len() == updates_needed(cfg, ms),
        updates_follow_model(cfg, st, ms, ups1, rate),
        updates_follow_model(cfg, st, ms, ups2, rate),
        replay_seq(cfg, st, ms, ups1) is Ok,
    ensures
        replay_seq(cfg, st, ms, ups2) == replay_seq(cfg, st, ms, ups1),
{
    lemma_followed_updates_unique(cfg, st, ms, ups1, ups2, rate);
}

/// Replay determinism at the pass level: with a pure rating model and a
/// snapshot listing each match once, a second reconciliation pass — the
/// working table reset to the baseline, the processed set, rank index and
/// rank records carried over from the first — produces the first pass's
/// working table exactly and emits no delta event, whichever followed
/// update sequence the second pass consumed. Together with the contract of
/// `run_replay_cycle`, which binds every pass to a followed sequence, two
/// consecutive passes over one snapshot are provably equal.
pub proof fn lemma_second_pass_identical<F: Fn(Rating, Rating, bool) -> (Rating, Rating)>(
    cfg: ReplayCfg,
    st: ReplayState,
    ms: Seq<TournamentMatch>,
    ups1: Seq<(Rating, Rating)>,
    ups2: Seq<(Rating, Rating)>,
    st1: ReplayState,
    evs1: Seq<DeltaEvent>,
    rate: F,
)
    requires
        functional_model(rate),
        distinct_match_ids(ms),
        ups1.len() == updates_needed(cfg, ms),
        ups2.len() == updates_needed(cfg, ms),
        replay_seq(cfg, st, ms, ups1) == Ok::<(ReplayState, Seq<DeltaEvent>), ReplayFault>(
            (st1, evs1),
        ),
        updates_follow_model(cfg, st, ms, ups1, rate),
        updates_follow_model(
            cfg,
            ReplayState {
                table: st.table,
                processed: st1.processed,
                ranks: st1.ranks,
                last_ranks: st1.last_ranks,
            },
            ms,
            ups2,
            rate,
        ),
    ensures
        replay_seq(
            cfg,
            ReplayState {
                table: st.table,
                processed: st1.processed,
                ranks: st1.ranks,
                last_ranks: st1.last_ranks,
            },
            ms,
            ups2,
        ) == Ok::<(ReplayState, Seq<DeltaEvent>), ReplayFault>(
            (st1, Seq::<DeltaEvent>::empty()),
        ),
{
    let st2 = ReplayState {
        table: st.table,
        processed: st1.processed,
        ranks: st1.ranks,
        last_ranks: st1.last_ranks,
    };
    lemma_replay_determinism(cfg, st, ms, ups1, st1, evs1, rate);
    lemma_followed_updates_unique(cfg, st2, ms, ups1, ups2, rate);
}

/// Rank monotonicity, insertion side: a rating value at least as good as
/// every stored one has no stored value strictly better, so `rank_of`
/// (which returns one more than this count) reports rank 1.
pub proof fn lemma_rank_of_best(s: Seq<i64>, v: i64)
    requires
        forall|k: int| 0 <= k < s.len() ==> s[k] <= v,
    ensures
        count_gt(s, v) == 0,
        1 + count_gt(s, v) == 1,
    decreases s.len(),
{
    if s.len() > 0 {
        let t = s.drop_last();
        assert(forall|k: int| 0 <= k < t.len() ==> t[k] == s[k]);
        lemma_rank_of_best(t, v);
    }
}

/// Rank monotonicity, removal side: once the best-rated entry leaves the
/// index, a value at least as good as everything remaining has `rank_of` 1.
pub proof fn lemma_rank_after_best_removed(s: Seq<i64>, b: int, v2: i64)
    requires
        0 <= b < s.len(),
        forall|k: int| 0 <= k < s.len() && k != b ==> s[k] <= v2,
    ensures
        count_gt(s.remove(b), v2) == 0,
        1 + count_gt(s.remove(b), v2) == 1,
{
    let t = s.remove(b);
    assert forall|k: int| 0 <= k < t.len() implies t[k] <= v2 by {
        if k < b {
            assert(t[k] == s[k]);
        } else {
            assert(t[k] == s[k + 1]);
        }
    }
    lemma_rank_of_best(t, v2);
}

} // verus!
