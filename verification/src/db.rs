//! Players, their identities and the rating table.
//!
//! `SwitzerlandPlayerMap` is the insertion-ordered rating table: the baseline
//! between poll cycles and the working copy inside one. It keeps one entry
//! per player identity; lookups compare identities by value.

use vstd::prelude::*;
use vstd::pervasive::VecAdditionalExecFns;
use crate::lang::Language;
use crate::rating::Rating;
use crate::schema::SendouId;
use crate::strutil::dec_digits;

verus! {

/// A stable player identity: either the bracket service's numeric id, or a
/// name carried over from records that predate the service.
#[derive(Debug, Hash)]
pub enum PlayerId {
    Sendou(SendouId),
    LegacyName(String),
}

/// Mathematical identity of a player, used as the table key in contracts.
pub enum PlayerKey {
    Sendou(SendouId),
    Legacy(Seq<char>),
}

impl PlayerId {
    pub open spec fn key(self) -> PlayerKey {
        match self {
            PlayerId::Sendou(id) => PlayerKey::Sendou(id),
            PlayerId::LegacyName(name) => PlayerKey::Legacy(name@),
        }
    }

    /// The numeric id of a player registered with the bracket service.
    /// Zero is the placeholder id and never names a real player.
    pub fn unwrap_sendou(&self) -> (r: SendouId)
        requires
            self.key() matches PlayerKey::Sendou(id) && id != 0,
        ensures
            self.key() == PlayerKey::Sendou(r),
            r != 0,
    {
        match self {
            PlayerId::Sendou(id) => *id,
            PlayerId::LegacyName(_) => {
                proof {
                    assert(false);
                }
                0
            },
        }
    }
}

impl Clone for PlayerId {
    fn clone(&self) -> (r: Self)
        ensures
            r == *self,
    {
        match self {
            PlayerId::Sendou(id) => PlayerId::Sendou(*id),
            PlayerId::LegacyName(name) => PlayerId::LegacyName(name.clone()),
        }
    }
}

impl PartialEq for PlayerId {
    fn eq(&self, other: &Self) -> (r: bool) {
        match (self, other) {
            (PlayerId::Sendou(a), PlayerId::Sendou(b)) => *a == *b,
            (PlayerId::LegacyName(a), PlayerId::LegacyName(b)) => a.eq(b),
            _ => false,
        }
    }
}

impl vstd::std_specs::cmp::PartialEqSpecImpl for PlayerId {
    open spec fn obeys_eq_spec() -> bool {
        true
    }

    open spec fn eq_spec(&self, other: &Self) -> bool {
        self.key() == other.key()
    }
}

impl Default for PlayerId {
    /// The placeholder identity.
    fn default() -> (r: Self)
        ensures
            r == PlayerId::Sendou(0),
    {
        PlayerId::Sendou(0)
    }
}

/// One entrant and everything the table remembers of them.
#[derive(Debug)]
pub struct SwitzerlandPlayer {
    pub id: PlayerId,
    pub display_name: Option<String>,
    pub language: Option<Language>,
    /// 1-based rank, populated only after the table was ranked.
    pub rank: Option<u32>,
    pub rating: Rating,
    /// Whether the rating is still the registration seed, untouched by any
    /// played match.
    pub unrated: bool,
}

fn clone_opt_string(s: &Option<String>) -> (r: Option<String>)
    ensures
        r == *s,
{
    match s {
        Some(x) => Some(x.clone()),
        None => None,
    }
}

impl Clone for SwitzerlandPlayer {
    fn clone(&self) -> (r: Self)
        ensures
            r == *self,
    {
        SwitzerlandPlayer {
            id: self.id.clone(),
            display_name: clone_opt_string(&self.display_name),
            language: self.language,
            rank: self.rank,
            rating: self.rating,
            unrated: self.unrated,
        }
    }
}

impl SwitzerlandPlayer {
    /// A fresh entrant with the placeholder identity and the default rating.
    pub fn new_default() -> (r: Self)
        ensures
            r == SwitzerlandPlayer::spec_default(),
    {
        SwitzerlandPlayer {
            id: PlayerId::Sendou(0),
            display_name: None,
            language: None,
            rank: None,
            rating: Rating::new(),
            unrated: false,
        }
    }

    pub open spec fn spec_default() -> SwitzerlandPlayer {
        SwitzerlandPlayer {
            id: PlayerId::Sendou(0),
            display_name: None,
            language: None,
            rank: None,
            rating: Rating::default_rating(),
            unrated: false,
        }
    }

    /// The bracket service id, for players that have one.
    pub fn sendou_id(&self) -> (r: Option<SendouId>)
        ensures
            match r {
                Some(id) => self.id.key() == PlayerKey::Sendou(id),
                None => self.id.key() is Legacy,
            },
    {
        match &self.id {
            PlayerId::Sendou(id) => Some(*id),
            PlayerId::LegacyName(_) => None,
        }
    }

    /// A populated rank is 1-based: ranking always starts at 1.
    pub open spec fn has_valid_rank(self) -> bool {
        self.rank matches Some(r) && r >= 1
    }

    /// The rank, once the table was ranked.
    pub fn unwrap_rank(&self) -> (r: u32)
        requires
            self.has_valid_rank(),
        ensures
            Some(r) == self.rank,
            r >= 1,
    {
        match self.rank {
            Some(r) => r,
            None => {
                proof {
                    assert(false);
                }
                0
            },
        }
    }

    /// What the player is called: the display name if one is known, else the
    /// identity itself.
    pub fn display_name(&self) -> (r: String)
        ensures
            r@ == self.spec_display_name(),
    {
        match &self.display_name {
            Some(name) => name.clone(),
            None => match &self.id {
                PlayerId::Sendou(id) => crate::strutil::u32_to_string(*id),
                PlayerId::LegacyName(name) => name.clone(),
            },
        }
    }

    pub open spec fn spec_display_name(self) -> Seq<char> {
        match self.display_name {
            Some(name) => name@,
            None => match self.id {
                PlayerId::Sendou(id) => dec_digits(id as nat),
                PlayerId::LegacyName(name) => name@,
            },
        }
    }
}

/// First position of a key in a player sequence, or the length when absent.
pub open spec fn index_of_key(s: Seq<SwitzerlandPlayer>, k: PlayerKey) -> int
    decreases s.len(),
{
    if s.len() == 0 {
        0
    } else if s[0].id.key() == k {
        0
    } else {
        1 + index_of_key(s.subrange(1, s.len() as int), k)
    }
}

pub open spec fn seq_contains_key(s: Seq<SwitzerlandPlayer>, k: PlayerKey) -> bool {
    exists|i: int| 0 <= i < s.len() && s[i].id.key() == k
}

/// No two entries share a key.
pub open spec fn unique_keys(s: Seq<SwitzerlandPlayer>) -> bool {
    forall|i: int, j: int| 0 <= i < j < s.len() ==> s[i].id.key() != s[j].id.key()
}

pub proof fn lemma_index_of_key_bounds(s: Seq<SwitzerlandPlayer>, k: PlayerKey)
    ensures
        0 <= index_of_key(s, k) <= s.len(),
        index_of_key(s, k) < s.len() ==> s[index_of_key(s, k)].id.key() == k,
        index_of_key(s, k) < s.len() ==> seq_contains_key(s, k),
    decreases s.len(),
{
    if s.len() > 0 && s[0].id.key() != k {
        lemma_index_of_key_bounds(s.subrange(1, s.len() as int), k);
    }
}

/// The index of a key is the first position that holds it.
pub proof fn lemma_index_of_key_first(s: Seq<SwitzerlandPlayer>, k: PlayerKey, i: int)
    requires
        0 <= i <= s.len(),
        forall|j: int| 0 <= j < i ==> s[j].id.key() != k,
        i < s.len() ==> s[i].id.key() == k,
    ensures
        index_of_key(s, k) == if i < s.len() {
            i
        } else {
            s.len() as int
        },
    decreases s.len(),
{
    if s.len() > 0 {
        if i == 0 {
        } else {
            let t = s.subrange(1, s.len() as int);
            assert(forall|j: int| 0 <= j < i - 1 ==> t[j].id.key() != k);
            lemma_index_of_key_first(t, k, i - 1);
        }
    }
}

/// A key that is absent stays beyond every position.
pub proof fn lemma_absent_key(s: Seq<SwitzerlandPlayer>, k: PlayerKey)
    requires
        !seq_contains_key(s, k),
    ensures
        index_of_key(s, k) == s.len(),
{
    lemma_index_of_key_first(s, k, s.len() as int);
}

/// The insertion-ordered rating table, one entry per player identity.
#[derive(Debug)]
pub struct SwitzerlandPlayerMap {
    entries: Vec<SwitzerlandPlayer>,
}

impl SwitzerlandPlayerMap {
    /// The entries in insertion order.
    pub closed spec fn view(self) -> Seq<SwitzerlandPlayer> {
        self.entries@
    }

    pub open spec fn wf(self) -> bool {
        unique_keys(self@)
    }

    pub open spec fn contains_key(self, k: PlayerKey) -> bool {
        seq_contains_key(self@, k)
    }

    pub fn new() -> (r: Self)
        ensures
            r@ == Seq::<SwitzerlandPlayer>::empty(),
            r.wf(),
    {
        let r = SwitzerlandPlayerMap { entries: Vec::new() };
        proof {
            assert(r@ =~= Seq::<SwitzerlandPlayer>::empty());
        }
        r
    }

    pub fn len(&self) -> (n: usize)
        ensures
            n == self@.len(),
    {
        self.entries.len()
    }

    /// The entry at one position of the insertion order.
    pub fn index(&self, i: usize) -> (r: &SwitzerlandPlayer)
        requires
            i < self@.len(),
        ensures
            *r == self@[i as int],
    {
        &self.entries[i]
    }

    /// Position of a player in the table, if present.
    pub fn find(&self, id: &PlayerId) -> (r: Option<usize>)
        ensures
            match r {
                Some(i) => i == index_of_key(self@, id.key()) && i < self@.len()
                    && self@[i as int].id.key() == id.key(),
                None => !self.contains_key(id.key()),
            },
    {
        let n = self.entries.len();
        for i in 0..n
            invariant
                n == self@.len(),
                forall|j: int| 0 <= j < i ==> self@[j].id.key() != id.key(),
        {
            if &self.entries[i].id == id {
                proof {
                    lemma_index_of_key_first(self@, id.key(), i as int);
                }
                return Some(i);
            }
        }
        None
    }

    /// The player with an identity, if present.
    pub fn get(&self, id: &PlayerId) -> (r: Option<&SwitzerlandPlayer>)
        ensures
            match r {
                Some(p) => self.contains_key(id.key()) && *p == self@[index_of_key(
                    self@,
                    id.key(),
                )],
                None => !self.contains_key(id.key()),
            },
    {
        match self.find(id) {
            Some(i) => Some(&self.entries[i]),
            None => None,
        }
    }

    /// Stores a player: replaces the entry with the same identity in place,
    /// or appends a new one.
    pub fn insert(&mut self, player: SwitzerlandPlayer)
        requires
            old(self).wf(),
        ensures
            final(self).wf(),
            old(self).contains_key(player.id.key()) ==> final(self)@ == old(self)@.update(
                index_of_key(old(self)@, player.id.key()),
                player,
            ),
            !old(self).contains_key(player.id.key()) ==> final(self)@ == old(self)@.push(player),
    {
        match self.find(&player.id) {
            Some(i) => {
                self.entries.set(i, player);
                proof {
                    assert(final(self).wf()) by {
                        let s = old(self)@;
                        let t = final(self)@;
                        assert(forall|a: int, b: int|
                            0 <= a < b < t.len() ==> t[a].id.key() != t[b].id.key()) by {
                            assert(forall|a: int|
                                0 <= a < t.len() && a != i ==> t[a].id.key() == s[a].id.key());
                            assert(t[i as int].id.key() == s[i as int].id.key());
                        }
                    }
                }
            },
            None => {
                self.entries.push(player);
                proof {
                    let s = old(self)@;
                    let t = final(self)@;
                    assert(forall|a: int| 0 <= a < s.len() ==> t[a] == s[a]);
                    assert(final(self).wf());
                }
            },
        }
    }

    /// Makes sure an identity is present: returns its position, appending
    /// the given entry when the identity was new. Mirrors an entry-or-insert
    /// on an ordered map.
    pub fn ensure(&mut self, player: SwitzerlandPlayer) -> (i: usize)
        requires
            old(self).wf(),
        ensures
            final(self).wf(),
            old(self).contains_key(player.id.key()) ==> final(self)@ == old(self)@ && i
                == index_of_key(old(self)@, player.id.key()),
            !old(self).contains_key(player.id.key()) ==> final(self)@ == old(self)@.push(player)
                && i == old(self)@.len(),
            i < final(self)@.len(),
            final(self)@[i as int].id.key() == player.id.key(),
    {
        proof {
            lemma_index_of_key_bounds(self@, player.id.key());
        }
        match self.find(&player.id) {
            Some(i) => i,
            None => {
                let i = self.entries.len();
                proof {
                    lemma_absent_key(self@, player.id.key());
                }
                self.entries.push(player);
                proof {
                    let s = old(self)@;
                    let t = final(self)@;
                    assert(forall|a: int| 0 <= a < s.len() ==> t[a] == s[a]);
                    assert(final(self).wf());
                }
                i
            },
        }
    }

    /// Overwrites the entry at one position. The new entry must keep the
    /// identity that position already had.
    pub fn set_at(&mut self, i: usize, player: SwitzerlandPlayer)
        requires
            old(self).wf(),
            i < old(self)@.len(),
            player.id.key() == old(self)@[i as int].id.key(),
        ensures
            final(self).wf(),
            final(self)@ == old(self)@.update(i as int, player),
    {
        self.entries.set(i, player);
        proof {
            let s = old(self)@;
            let t = final(self)@;
            assert(forall|a: int| 0 <= a < t.len() && a != i ==> t[a].id.key() == s[a].id.key());
            assert(t[i as int].id.key() == s[i as int].id.key());
            assert(final(self).wf());
        }
    }

    /// Removes the entry with an identity and hands it out.
    pub fn remove(&mut self, id: &PlayerId) -> (r: Option<SwitzerlandPlayer>)
        requires
            old(self).wf(),
        ensures
            final(self).wf(),
            match r {
                Some(p) => old(self).contains_key(id.key()) && p == old(self)@[index_of_key(
                    old(self)@,
                    id.key(),
                )] && final(self)@ == old(self)@.remove(index_of_key(old(self)@, id.key())),
                None => !old(self).contains_key(id.key()) && final(self)@ == old(self)@,
            },
    {
        match self.find(id) {
            Some(i) => {
                let p = self.entries.remove(i);
                proof {
                    let s = old(self)@;
                    let t = final(self)@;
                    assert(forall|a: int| 0 <= a < i ==> t[a] == s[a]);
                    assert(forall|a: int| i <= a < t.len() ==> t[a] == s[a + 1]);
                    assert(final(self).wf());
                }
                Some(p)
            },
            None => None,
        }
    }

    /// A full copy of the table.
    pub fn clone_map(&self) -> (r: Self)
        ensures
            r@ == self@,
            r.wf() == self.wf(),
    {
        let n = self.entries.len();
        let mut out: Vec<SwitzerlandPlayer> = Vec::new();
        for i in 0..n
            invariant
                n == self@.len(),
                out@.len() == i,
                forall|j: int| 0 <= j < i ==> out@[j] == self@[j],
        {
            out.push(self.entries[i].clone());
        }
        let r = SwitzerlandPlayerMap { entries: out };
        proof {
            assert(r@ =~= self@);
        }
        r
    }

    /// The ratings of every entry, in table order.
    pub fn ratings(&self) -> (r: Vec<Rating>)
        ensures
            r@ == self@.map_values(|p: SwitzerlandPlayer| p.rating),
    {
        let n = self.entries.len();
        let mut out: Vec<Rating> = Vec::new();
        for i in 0..n
            invariant
                n == self@.len(),
                out@.len() == i,
                forall|j: int| 0 <= j < i ==> out@[j] == self@[j].rating,
        {
            out.push(self.entries[i].rating);
        }
        proof {
            assert(out@ =~= self@.map_values(|p: SwitzerlandPlayer| p.rating));
        }
        out
    }

    /// Moves the entries out, in insertion order.
    pub fn into_players(self) -> (r: Vec<SwitzerlandPlayer>)
        ensures
            r@ == self@,
    {
        self.entries
    }

    /// Takes ownership of a player list as a table. The caller vouches that
    /// the identities are distinct.
    pub fn from_players(players: Vec<SwitzerlandPlayer>) -> (r: Self)
        requires
            unique_keys(players@),
        ensures
            r@ == players@,
            r.wf(),
    {
        SwitzerlandPlayerMap { entries: players }
    }
}

} // verus!
