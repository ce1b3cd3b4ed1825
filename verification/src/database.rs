//! The persisted rating database: the ranked player list that is read at
//! startup and written once at finalization, and the query that resolves
//! free-form player lookups.
//!
//! Serialization and file handling are edges outside this crate; the
//! database here is the plain list and its rules: descending rating order,
//! 1-based ranks, and fuzzy lookup by edit distance.

use vstd::prelude::*;
use crate::db::{
    index_of_key, lemma_index_of_key_bounds, lemma_index_of_key_first, seq_contains_key,
    PlayerId, PlayerKey, SwitzerlandPlayer, SwitzerlandPlayerMap,
};
use crate::strutil::{damerau_distance, damerau_levenshtein, lower_of, to_lowercase};

verus! {

/// Number of entries of `s` satisfying `p`.
pub open spec fn count_pred(s: Seq<SwitzerlandPlayer>, p: spec_fn(SwitzerlandPlayer) -> bool) -> int
    decreases s.len(),
{
    if s.len() == 0 {
        0
    } else {
        count_pred(s.drop_last(), p) + if p(s.last()) {
            1int
        } else {
            0int
        }
    }
}

/// A two-sided partition point is exactly the count of satisfying entries.
pub proof fn lemma_count_pred_from_partition(
    s: Seq<SwitzerlandPlayer>,
    p: spec_fn(SwitzerlandPlayer) -> bool,
    i: int,
)
    requires
        0 <= i <= s.len(),
        forall|k: int| 0 <= k < i ==> p(#[trigger] s[k]),
        forall|k: int| i <= k < s.len() ==> !p(#[trigger] s[k]),
    ensures
        count_pred(s, p) == i,
    decreases s.len(),
{
    if s.len() > 0 {
        if i == s.len() {
            lemma_count_pred_from_partition(s.drop_last(), p, i - 1);
        } else {
            lemma_count_pred_from_partition(s.drop_last(), p, i);
        }
    }
}

pub open spec fn sorted_by_rating_desc(s: Seq<SwitzerlandPlayer>) -> bool {
    forall|i: int, j: int| 0 <= i < j < s.len() ==> s[i].rating.value >= s[j].rating.value
}

/// Stable descending arrangement by rating value: each entry lands after
/// every earlier entry rated at least as high.
pub open spec fn sort_players_by_rating(s: Seq<SwitzerlandPlayer>) -> Seq<SwitzerlandPlayer>
    decreases s.len(),
{
    if s.len() == 0 {
        Seq::empty()
    } else {
        let prev = sort_players_by_rating(s.drop_last());
        let x = s.last();
        prev.insert(
            count_pred(prev, |q: SwitzerlandPlayer| q.rating.value >= x.rating.value),
            x,
        )
    }
}

fn insert_by_rating(out: &mut Vec<SwitzerlandPlayer>, p: SwitzerlandPlayer)
    requires
        sorted_by_rating_desc(old(out)@),
    ensures
        final(out)@ == old(out)@.insert(
            count_pred(old(out)@, |q: SwitzerlandPlayer| q.rating.value >= p.rating.value),
            p,
        ),
        final(out)@.len() == old(out)@.len() + 1,
        sorted_by_rating_desc(final(out)@),
{
    let v = p.rating.value;
    let mut j: usize = 0;
    while j < out.len() && out[j].rating.value >= v
        invariant
            j <= out@.len(),
            sorted_by_rating_desc(out@),
            v == p.rating.value,
            forall|k: int| 0 <= k < j ==> out@[k].rating.value >= v,
        decreases out@.len() - j,
    {
        j = j + 1;
    }
    proof {
        let pred = |q: SwitzerlandPlayer| q.rating.value >= p.rating.value;
        assert forall|k: int| j <= k < out@.len() implies !pred(out@[k]) by {
            assert(out@[k].rating.value <= out@[j as int].rating.value);
        }
        lemma_count_pred_from_partition(out@, pred, j as int);
        out@.insert_ensures(j as int, p);
    }
    out.insert(j, p);
    proof {
        let s = old(out)@;
        let t = final(out)@;
        assert(forall|k: int| 0 <= k < j ==> t[k] == s[k]);
        assert(t[j as int] == p);
        assert(forall|k: int| j < k < t.len() ==> t[k] == s[k - 1]);
        assert(sorted_by_rating_desc(t));
    }
}

/// The entry with its rank field replaced.
pub open spec fn with_rank(p: SwitzerlandPlayer, rank: Option<u32>) -> SwitzerlandPlayer {
    SwitzerlandPlayer { rank, ..p }
}

/// The list with 1-based ranks assigned by position.
pub open spec fn assign_ranks(s: Seq<SwitzerlandPlayer>) -> Seq<SwitzerlandPlayer> {
    Seq::new(s.len(), |i: int| with_rank(s[i], Some((i + 1) as u32)))
}

/// The ordered map keyed by identity that a player list induces: a repeated
/// identity replaces the earlier value in place.
pub open spec fn map_from_players(s: Seq<SwitzerlandPlayer>) -> Seq<SwitzerlandPlayer>
    decreases s.len(),
{
    if s.len() == 0 {
        Seq::empty()
    } else {
        let prev = map_from_players(s.drop_last());
        let p = s.last();
        if seq_contains_key(prev, p.id.key()) {
            prev.update(index_of_key(prev, p.id.key()), p)
        } else {
            prev.push(p)
        }
    }
}

/// The persisted rating table: every rated player, best first, with ranks
/// assigned after each sort.
#[derive(Debug)]
pub struct Database {
    pub players: Vec<SwitzerlandPlayer>,
}

impl Database {
    pub fn new() -> (r: Database)
        ensures
            r.players@ == Seq::<SwitzerlandPlayer>::empty(),
    {
        let r = Database { players: Vec::new() };
        proof {
            assert(r.players@ =~= Seq::<SwitzerlandPlayer>::empty());
        }
        r
    }

    /// Orders the players by descending rating (stable) and renumbers the
    /// ranks from 1.
    pub fn sort(&mut self)
        requires
            old(self).players@.len() < u32::MAX,
        ensures
            final(self).players@ == assign_ranks(sort_players_by_rating(old(self).players@)),
    {
        let n = self.players.len();
        let mut sorted: Vec<SwitzerlandPlayer> = Vec::new();
        proof {
            assert(self.players@.subrange(0, 0) =~= Seq::<SwitzerlandPlayer>::empty());
            assert(sorted@ =~= Seq::<SwitzerlandPlayer>::empty());
        }
        for i in 0..n
            invariant
                n == self.players@.len(),
                self.players@ == old(self).players@,
                sorted_by_rating_desc(sorted@),
                sorted@.len() == i,
                sorted@ == sort_players_by_rating(self.players@.subrange(0, i as int)),
        {
            let ghost prefix = self.players@.subrange(0, i as int);
            insert_by_rating(&mut sorted, self.players[i].clone());
            proof {
                assert(self.players@.subrange(0, i + 1).drop_last() =~= prefix);
                assert(self.players@.subrange(0, i + 1).last() == self.players@[i as int]);
            }
        }
        proof {
            assert(self.players@.subrange(0, n as int) =~= self.players@);
        }
        self.players = sorted;
        self.init_rank();
    }

    fn init_rank(&mut self)
        requires
            old(self).players@.len() < u32::MAX,
        ensures
            final(self).players@ == assign_ranks(old(self).players@),
    {
        let n = self.players.len();
        for i in 0..n
            invariant
                n == self.players@.len(),
                forall|k: int|
                    0 <= k < i ==> self.players@[k] == with_rank(
                        old(self).players@[k],
                        Some((k + 1) as u32),
                    ),
                forall|k: int| i <= k < n ==> self.players@[k] == old(self).players@[k],
                n < u32::MAX,
        {
            let cur = self.players[i].clone();
            let ranked = SwitzerlandPlayer {
                id: cur.id,
                display_name: cur.display_name,
                language: cur.language,
                rank: Some((i as u32) + 1),
                rating: cur.rating,
                unrated: cur.unrated,
            };
            vstd::pervasive::VecAdditionalExecFns::set(&mut self.players, i, ranked);
        }
        proof {
            assert(self.players@ =~= assign_ranks(old(self).players@));
        }
    }

    /// Builds the database a finished tournament persists: every rated
    /// player of the working table (seeds that never played are dropped),
    /// ordered and ranked.
    pub fn new_from_map(map: SwitzerlandPlayerMap) -> (r: Database)
        requires
            map@.len() < u32::MAX,
        ensures
            r.players@ == assign_ranks(
                sort_players_by_rating(map@.filter(|x: SwitzerlandPlayer| !x.unrated)),
            ),
    {
        let ghost map_seq = map@;
        let players = map.into_players();
        let mut kept: Vec<SwitzerlandPlayer> = Vec::new();
        let n = players.len();
        proof {
            reveal(Seq::filter);
            assert(players@.subrange(0, 0) =~= Seq::<SwitzerlandPlayer>::empty());
            assert(kept@ =~= players@.subrange(0, 0).filter(|x: SwitzerlandPlayer| !x.unrated));
        }
        for i in 0..n
            invariant
                n == players@.len(),
                kept@ == players@.subrange(0, i as int).filter(
                    |x: SwitzerlandPlayer| !x.unrated,
                ),
                kept@.len() <= i,
        {
            let ghost prefix = players@.subrange(0, i as int);
            proof {
                reveal(Seq::filter);
                assert(players@.subrange(0, i + 1).drop_last() =~= prefix);
                assert(players@.subrange(0, i + 1).last() == players@[i as int]);
            }
            if !players[i].unrated {
                kept.push(players[i].clone());
            }
        }
        proof {
            assert(players@.subrange(0, n as int) =~= players@);
        }
        let mut db = Database { players: kept };
        db.sort();
        db
    }

    /// The players as the insertion-ordered table the reconciler works on.
    pub fn into_map(self) -> (r: SwitzerlandPlayerMap)
        ensures
            r@ == map_from_players(self.players@),
            r.wf(),
    {
        let mut m = SwitzerlandPlayerMap::new();
        let n = self.players.len();
        proof {
            assert(self.players@.subrange(0, 0) =~= Seq::<SwitzerlandPlayer>::empty());
        }
        for i in 0..n
            invariant
                n == self.players@.len(),
                m.wf(),
                m@ == map_from_players(self.players@.subrange(0, i as int)),
        {
            let ghost prefix = self.players@.subrange(0, i as int);
            m.insert(self.players[i].clone());
            proof {
                assert(self.players@.subrange(0, i + 1).drop_last() =~= prefix);
                assert(self.players@.subrange(0, i + 1).last() == self.players@[i as int]);
            }
        }
        proof {
            assert(self.players@.subrange(0, n as int) =~= self.players@);
        }
        m
    }
}

/// Relies on str::parse::<u32>: whether and as which number a string parses
/// depends on its characters alone.
pub uninterp spec fn parsed_u32(s: Seq<char>) -> Option<u32>;

/// Relies on str::parse::<u32>.
#[verifier::external_body]
pub(crate) fn parse_u32(s: &str) -> (r: Option<u32>)
    ensures
        r == parsed_u32(s@),
{
    s.parse::<u32>().ok()
}

/// The edit distance from a lowered query to a player's lowered display
/// name.
pub open spec fn query_dist(q: Seq<char>, p: SwitzerlandPlayer) -> nat {
    damerau_distance(q, lower_of(p.spec_display_name()))
}

/// The first index of the player closest to a lowered query, by edit
/// distance over lowered display names; earlier entries win ties.
pub open spec fn argmin_dist(s: Seq<SwitzerlandPlayer>, q: Seq<char>) -> int
    decreases s.len(),
{
    if s.len() <= 1 {
        0
    } else {
        let b = argmin_dist(s.drop_last(), q);
        if query_dist(q, s.last()) < query_dist(q, s[b]) {
            s.len() - 1
        } else {
            b
        }
    }
}

pub proof fn lemma_argmin_dist_bounds(s: Seq<SwitzerlandPlayer>, q: Seq<char>)
    requires
        s.len() > 0,
    ensures
        0 <= argmin_dist(s, q) < s.len(),
    decreases s.len(),
{
    if s.len() > 1 {
        lemma_argmin_dist_bounds(s.drop_last(), q);
    }
}

/// Finds the player whose lowered display name is closest to the lowered
/// query.
fn closest_index(players: &Vec<SwitzerlandPlayer>, lowered_query: &String) -> (r: usize)
    requires
        players@.len() > 0,
    ensures
        r == argmin_dist(players@, lowered_query@),
{
    let name0 = players[0].display_name();
    let lowered0 = to_lowercase(name0.as_str());
    let mut best: usize = 0;
    let mut best_dist = damerau_levenshtein(lowered_query.as_str(), lowered0.as_str());
    let n = players.len();
    proof {
        assert(players@.subrange(0, 1).len() == 1);
        assert(players@.subrange(0, 1)[0] == players@[0]);
    }
    for i in 1..n
        invariant
            n == players@.len(),
            best < i <= n,
            best == argmin_dist(players@.subrange(0, i as int), lowered_query@),
            best_dist == query_dist(lowered_query@, players@[best as int]),
    {
        let ghost prefix = players@.subrange(0, i as int);
        let name = players[i].display_name();
        let lowered = to_lowercase(name.as_str());
        let dist = damerau_levenshtein(lowered_query.as_str(), lowered.as_str());
        proof {
            assert(players@.subrange(0, i + 1).drop_last() =~= prefix);
            assert(players@.subrange(0, i + 1).last() == players@[i as int]);
            assert(players@.subrange(0, i + 1)[argmin_dist(prefix, lowered_query@)]
                == prefix[argmin_dist(prefix, lowered_query@)]) by {
                lemma_argmin_dist_bounds(prefix, lowered_query@);
            }
        }
        if dist < best_dist {
            best = i;
            best_dist = dist;
        }
    }
    proof {
        assert(players@.subrange(0, n as int) =~= players@);
    }
    best
}

/// Which entry one lookup picks from the remaining players: the player with
/// the queried bracket id when id lookup is allowed and finds one, else the
/// closest display name; nothing when no players remain.
pub open spec fn spec_query_pick(
    s: Seq<SwitzerlandPlayer>,
    q: String,
    allow_sendou_id: bool,
) -> Option<int> {
    let by_id = if allow_sendou_id {
        match parsed_u32(q@) {
            Some(id) => if seq_contains_key(s, PlayerKey::Sendou(id)) {
                Some(index_of_key(s, PlayerKey::Sendou(id)))
            } else {
                None
            },
            None => None,
        }
    } else {
        None
    };
    match by_id {
        Some(i) => Some(i),
        None => if s.len() == 0 {
            None
        } else {
            Some(argmin_dist(s, lower_of(q@)))
        },
    }
}

/// The lookup loop: each query in turn picks and removes one player from
/// the remaining pool and appends them to the results.
pub open spec fn spec_query_fold(
    s: Seq<SwitzerlandPlayer>,
    acc: Seq<SwitzerlandPlayer>,
    qs: Seq<String>,
    allow_sendou_id: bool,
) -> (Seq<SwitzerlandPlayer>, Seq<SwitzerlandPlayer>)
    decreases qs.len(),
{
    if qs.len() == 0 {
        (s, acc)
    } else {
        let rest = qs.subrange(1, qs.len() as int);
        match spec_query_pick(s, qs[0], allow_sendou_id) {
            Some(i) => spec_query_fold(s.remove(i), acc.push(s[i]), rest, allow_sendou_id),
            None => spec_query_fold(s, acc, rest, allow_sendou_id),
        }
    }
}

pub open spec fn rank_key(p: SwitzerlandPlayer) -> int {
    match p.rank {
        None => -1,
        Some(r) => r as int,
    }
}

pub open spec fn sorted_by_rank(s: Seq<SwitzerlandPlayer>) -> bool {
    forall|i: int, j: int| 0 <= i < j < s.len() ==> rank_key(s[i]) <= rank_key(s[j])
}

/// Stable ascending arrangement by rank, unranked entries first.
pub open spec fn sort_players_by_rank(s: Seq<SwitzerlandPlayer>) -> Seq<SwitzerlandPlayer>
    decreases s.len(),
{
    if s.len() == 0 {
        Seq::empty()
    } else {
        let prev = sort_players_by_rank(s.drop_last());
        let x = s.last();
        prev.insert(count_pred(prev, |q: SwitzerlandPlayer| rank_key(q) <= rank_key(x)), x)
    }
}

fn rank_key_exec(p: &SwitzerlandPlayer) -> (r: i64)
    ensures
        r == rank_key(*p),
{
    match p.rank {
        None => -1,
        Some(r) => r as i64,
    }
}

fn insert_by_rank(out: &mut Vec<SwitzerlandPlayer>, p: SwitzerlandPlayer)
    requires
        sorted_by_rank(old(out)@),
    ensures
        final(out)@ == old(out)@.insert(
            count_pred(old(out)@, |q: SwitzerlandPlayer| rank_key(q) <= rank_key(p)),
            p,
        ),
        final(out)@.len() == old(out)@.len() + 1,
        sorted_by_rank(final(out)@),
{
    let v = rank_key_exec(&p);
    let mut j: usize = 0;
    while j < out.len() && rank_key_exec(&out[j]) <= v
        invariant
            j <= out@.len(),
            sorted_by_rank(out@),
            v == rank_key(p),
            forall|k: int| 0 <= k < j ==> rank_key(out@[k]) <= v,
        decreases out@.len() - j,
    {
        j = j + 1;
    }
    proof {
        let pred = |q: SwitzerlandPlayer| rank_key(q) <= rank_key(p);
        assert forall|k: int| j <= k < out@.len() implies !pred(out@[k]) by {
            assert(rank_key(out@[k]) >= rank_key(out@[j as int]));
        }
        lemma_count_pred_from_partition(out@, pred, j as int);
        out@.insert_ensures(j as int, p);
    }
    out.insert(j, p);
    proof {
        let s = old(out)@;
        let t = final(out)@;
        assert(forall|k: int| 0 <= k < j ==> t[k] == s[k]);
        assert(t[j as int] == p);
        assert(forall|k: int| j < k < t.len() ==> t[k] == s[k - 1]);
        assert(sorted_by_rank(t));
    }
}

impl Database {
    /// Resolves free-form lookups: each query takes the best-matching
    /// player out of the pool — by bracket id when allowed and found, else
    /// by edit distance over lowered display names — and the matches come
    /// back in rank order. With no queries, the whole list is returned.
    pub fn query(self, queries: Option<&Vec<String>>, allow_sendou_id: bool) -> (r: Vec<
        SwitzerlandPlayer,
    >)
        ensures
            ({
                match queries {
                    None => r@ == self.players@,
                    Some(qs) => if self.players@.len() == 0 {
                        r@ == self.players@
                    } else {
                        r@ == sort_players_by_rank(
                            spec_query_fold(self.players@, Seq::empty(), qs@, allow_sendou_id).1,
                        )
                    },
                }
            }),
    {
        let mut pool = self.players;
        if pool.is_empty() {
            return pool;
        }
        let qs = match queries {
            None => {
                return pool;
            },
            Some(qs) => qs,
        };
        let ghost pool0 = pool@;
        let mut results: Vec<SwitzerlandPlayer> = Vec::new();
        let qn = qs.len();
        proof {
            assert(results@ =~= Seq::<SwitzerlandPlayer>::empty());
            assert(qs@.subrange(0, qn as int) =~= qs@);
        }
        for qi in 0..qn
            invariant
                qn == qs@.len(),
                spec_query_fold(pool@, results@, qs@.subrange(qi as int, qn as int), allow_sendou_id)
                    == spec_query_fold(pool0, Seq::empty(), qs@, allow_sendou_id),
        {
            let ghost remaining = qs@.subrange(qi as int, qn as int);
            proof {
                assert(remaining[0] == qs@[qi as int]);
                assert(remaining.subrange(1, remaining.len() as int) =~= qs@.subrange(
                    qi + 1,
                    qn as int,
                ));
            }
            let query = &qs[qi];
            let mut choice: Option<usize> = None;
            if allow_sendou_id {
                match parse_u32(query.as_str()) {
                    Some(id) => {
                        choice = find_sendou_index(&pool, id);
                    },
                    None => {
                    },
                }
            }
            proof {
                if choice is Some {
                    lemma_index_of_key_bounds(pool@, PlayerKey::Sendou(parsed_u32(
                        qs@[qi as int]@,
                    ).unwrap()));
                }
            }
            if choice.is_none() && pool.len() > 0 {
                choice = Some(closest_index(&pool, &to_lowercase(query.as_str())));
                proof {
                    lemma_argmin_dist_bounds(pool@, lower_of(qs@[qi as int]@));
                }
            }
            proof {
                assert(match choice {
                    Some(i) => spec_query_pick(pool@, qs@[qi as int], allow_sendou_id) == Some(
                        i as int,
                    ),
                    None => spec_query_pick(pool@, qs@[qi as int], allow_sendou_id)
                        is None,
                });
            }
            match choice {
                Some(i) => {
                    let picked = pool.remove(i);
                    results.push(picked);
                },
                None => {
                },
            }
        }
        proof {
            assert(qs@.subrange(qn as int, qn as int) =~= Seq::<String>::empty());
        }
        let mut out: Vec<SwitzerlandPlayer> = Vec::new();
        let rn = results.len();
        proof {
            assert(results@.subrange(0, 0) =~= Seq::<SwitzerlandPlayer>::empty());
            assert(out@ =~= sort_players_by_rank(results@.subrange(0, 0)));
        }
        for i in 0..rn
            invariant
                rn == results@.len(),
                sorted_by_rank(out@),
                out@ == sort_players_by_rank(results@.subrange(0, i as int)),
        {
            let ghost prefix = results@.subrange(0, i as int);
            insert_by_rank(&mut out, results[i].clone());
            proof {
                assert(results@.subrange(0, i + 1).drop_last() =~= prefix);
                assert(results@.subrange(0, i + 1).last() == results@[i as int]);
            }
        }
        proof {
            assert(results@.subrange(0, rn as int) =~= results@);
        }
        out
    }
}

/// Position of the player with a bracket id, if one is in the list.
fn find_sendou_index(players: &Vec<SwitzerlandPlayer>, id: u32) -> (r: Option<usize>)
    ensures
        match r {
            Some(i) => i < players@.len() && seq_contains_key(players@, PlayerKey::Sendou(id))
                && i == index_of_key(players@, PlayerKey::Sendou(id)),
            None => !seq_contains_key(players@, PlayerKey::Sendou(id)),
        },
{
    let n = players.len();
    for i in 0..n
        invariant
            n == players@.len(),
            forall|j: int| 0 <= j < i ==> players@[j].id.key() != PlayerKey::Sendou(id),
    {
        match &players[i].id {
            PlayerId::Sendou(pid) => {
                if *pid == id {
                    proof {
                        lemma_index_of_key_first(players@, PlayerKey::Sendou(id), i as int);
                    }
                    return Some(i);
                }
            },
            PlayerId::LegacyName(_) => {
            },
        }
    }
    None
}

/// Creates an empty database. Writing it to disk is the caller's edge.
pub fn init_db() -> (r: Database)
    ensures
        r.players@ == Seq::<SwitzerlandPlayer>::empty(),
{
    Database::new()
}

} // verus!
