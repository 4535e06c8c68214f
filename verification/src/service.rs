//! Read-only projections of the store: the ranked leaderboard, single-player
//! lookup and the player count. Nothing here mutates state.

use crate::state::{
    byte_len, lemma_map_of_contains, lemma_map_of_index, lemma_map_of_len, CrossyChainState,
    PlayerData, PlayerDataView, MAX_DISPLAY_NAME_LEN,
};
use crate::text::{trim_spec, trim_str};
use vstd::prelude::*;

verus! {

/// One stored record flattened into a row of the ranked read-only view.
#[derive(Clone, Debug)]
pub struct LeaderboardEntry {
    pub wallet_address: String,
    pub high_score: u32,
    pub games_played: u32,
    pub last_played_at: Option<u64>,
    pub display_name: Option<String>,
    pub replay_data: Option<String>,
}

/// The entry `e` displays exactly the record `r` stored for `key`.
pub open spec fn entry_matches(e: LeaderboardEntry, key: Seq<char>, r: PlayerDataView) -> bool {
    &&& e.wallet_address@ == key
    &&& e.high_score as int == r.high_score
    &&& e.games_played as int == r.games_played
    &&& (match e.last_played_at {
        Some(t) => r.last_played_at == Some(t as int),
        None => r.last_played_at is None,
    })
    &&& e.display_name.deep_view() == r.display_name
    &&& e.replay_data.deep_view() == r.replay_data
}

/// The entry `e` displays what the store `m` holds for its own address.
pub open spec fn entry_from_store(m: Map<Seq<char>, PlayerDataView>, e: LeaderboardEntry) -> bool {
    m.dom().contains(e.wallet_address@) && entry_matches(e, e.wallet_address@, m[e.wallet_address@])
}

/// Entries ranked by high score, descending.
pub open spec fn sorted_desc(s: Seq<LeaderboardEntry>) -> bool {
    forall|i: int, j: int| 0 <= i < j < s.len() ==> s[i].high_score >= s[j].high_score
}

/// No two entries share a wallet address.
pub open spec fn distinct_entry_keys(s: Seq<LeaderboardEntry>) -> bool {
    forall|i: int, j: int| 0 <= i < j < s.len() ==> s[i].wallet_address@ != s[j].wallet_address@
}

/// Some entry carries the address `key`.
pub open spec fn covered(s: Seq<LeaderboardEntry>, key: Seq<char>) -> bool {
    exists|i: int| 0 <= i < s.len() && (#[trigger] s[i]).wallet_address@ == key
}

/// The requested leaderboard size clamped to `[1, 100]`; ten when absent.
pub open spec fn clamp_top_n(top_n: Option<i32>) -> int {
    match top_n {
        None => 10,
        Some(n) => if n < 1 {
            1
        } else if n > 100 {
            100
        } else {
            n as int
        },
    }
}

/// The query surface's local check of a display name before a registration
/// is enqueued: a name longer than [`MAX_DISPLAY_NAME_LEN`] bytes, or blank
/// after trimming, is turned away at the edge; an absent name passes.
pub fn register_precheck(display_name: &Option<String>) -> (r: bool)
    ensures
        r == (match display_name {
            Some(n) => byte_len(n@) <= MAX_DISPLAY_NAME_LEN && trim_spec(n@).len() > 0,
            None => true,
        }),
{
    match display_name {
        Some(name) => {
            if name.as_str().as_bytes().len() > MAX_DISPLAY_NAME_LEN {
                return false;
            }
            let trimmed = trim_str(name.as_str());
            !trimmed.as_str().is_empty()
        },
        None => true,
    }
}

/// Flattens one stored record for `wallet_address` into an entry.
fn entry_of(wallet_address: String, player: &PlayerData) -> (e: LeaderboardEntry)
    ensures
        entry_matches(e, wallet_address@, player@),
{
    LeaderboardEntry {
        wallet_address,
        high_score: player.high_score,
        games_played: player.games_played,
        last_played_at: player.last_played_at,
        display_name: match &player.display_name {
            Some(s) => Some(s.clone()),
            None => None,
        },
        replay_data: match &player.replay_data {
            Some(s) => Some(s.clone()),
            None => None,
        },
    }
}

impl CrossyChainState {
    /// Every stored record flattened to an entry, one per address, in store
    /// order.
    fn entries(&self) -> (v: Vec<LeaderboardEntry>)
        requires
            self.wf(),
        ensures
            v@.len() == self@.dom().len(),
            forall|i: int| 0 <= i < v@.len() ==> entry_from_store(self@, #[trigger] v@[i]),
            distinct_entry_keys(v@),
            forall|k: Seq<char>| self@.dom().contains(k) ==> covered(v@, k),
    {
        let mut v: Vec<LeaderboardEntry> = Vec::new();
        let n = self.players.len();
        let mut i: usize = 0;
        while i < n
            invariant
                self.wf(),
                n == self.players@.len(),
                i <= n,
                v@.len() == i,
                forall|j: int|
                    0 <= j < i ==> entry_matches(
                        #[trigger] v@[j],
                        self.players@[j].0@,
                        self.players@[j].1@,
                    ),
            decreases n - i,
        {
            let key = self.players[i].0.clone();
            let e = entry_of(key, &self.players[i].1);
            v.push(e);
            i += 1;
        }
        proof {
            lemma_map_of_len(self.players@);
            assert forall|j: int| 0 <= j < v@.len() implies entry_from_store(self@, v@[j]) by {
                lemma_map_of_index(self.players@, j);
            }
            assert forall|k: Seq<char>| self@.dom().contains(k) implies covered(v@, k) by {
                lemma_map_of_contains(self.players@, k);
                let j = choose|j: int| 0 <= j < self.players@.len() && self.players@[j].0@ == k;
                assert(v@[j].wallet_address@ == k);
            }
        }
        v
    }

    /// The top players ranked by high score, descending. `top_n` is clamped
    /// to `[1, 100]` and defaults to ten when absent. Equal scores come in an
    /// unspecified order, but a player is only left out when the clamped size
    /// cuts the list off, and never in favour of a lower score.
    pub fn leaderboard(&self, top_n: Option<i32>) -> (r: Vec<LeaderboardEntry>)
        requires
            self.wf(),
        ensures
            r@.len() == (if clamp_top_n(top_n) <= self@.dom().len() {
                clamp_top_n(top_n)
            } else {
                self@.dom().len() as int
            }),
            sorted_desc(r@),
            distinct_entry_keys(r@),
            forall|i: int| 0 <= i < r@.len() ==> entry_from_store(self@, #[trigger] r@[i]),
            forall|k: Seq<char>|
                self@.dom().contains(k) && !covered(r@, k) ==> r@.len() == clamp_top_n(top_n)
                    && (forall|i: int|
                    0 <= i < r@.len() ==> self@[k].high_score <= (#[trigger] r@[i]).high_score),
    {
        let limit: usize = match top_n {
            Some(n) => if n < 1 {
                1
            } else if n > 100 {
                100
            } else {
                n as usize
            },
            None => 10,
        };
        assert(limit as int == clamp_top_n(top_n));
        let mut work = self.entries();
        let mut result: Vec<LeaderboardEntry> = Vec::new();
        while result.len() < limit && work.len() > 0
            invariant
                self.wf(),
                result@.len() <= limit,
                result@.len() + work@.len() == self@.dom().len(),
                forall|i: int| 0 <= i < result@.len() ==> entry_from_store(self@, #[trigger] result@[i]),
                forall|i: int| 0 <= i < work@.len() ==> entry_from_store(self@, #[trigger] work@[i]),
                distinct_entry_keys(result@),
                distinct_entry_keys(work@),
                forall|i: int, j: int|
                    0 <= i < result@.len() && 0 <= j < work@.len() ==> (#[trigger] result@[i]).wallet_address@
                        != (#[trigger] work@[j]).wallet_address@,
                forall|k: Seq<char>|
                    self@.dom().contains(k) ==> covered(result@, k) || covered(work@, k),
                sorted_desc(result@),
                forall|i: int, j: int|
                    0 <= i < result@.len() && 0 <= j < work@.len() ==> (#[trigger] result@[i]).high_score
                        >= (#[trigger] work@[j]).high_score,
            decreases work@.len(),
        {
            let mut best: usize = 0;
            let mut j: usize = 1;
            while j < work.len()
                invariant
                    work@.len() > 0,
                    best < j <= work@.len(),
                    forall|t: int|
                        0 <= t < j ==> (#[trigger] work@[t]).high_score <= work@[best as int].high_score,
                decreases work@.len() - j,
            {
                if work[j].high_score > work[best].high_score {
                    best = j;
                }
                j += 1;
            }
            let ghost r0 = result@;
            let ghost w0 = work@;
            let e = work.remove(best);
            result.push(e);
            proof {
                let b = best as int;
                assert(result@ == r0.push(w0[b]));
                assert forall|i: int, j2: int| 0 <= i < j2 < result@.len() implies result@[i].wallet_address@
                    != result@[j2].wallet_address@ by {
                    assert(result@[i] == r0[i]);
                    if j2 < r0.len() {
                        assert(result@[j2] == r0[j2]);
                    } else {
                        assert(result@[j2] == w0[b]);
                    }
                }
                assert forall|i: int, j2: int| 0 <= i < j2 < result@.len() implies result@[i].high_score
                    >= result@[j2].high_score by {
                    assert(result@[i] == r0[i]);
                    if j2 < r0.len() {
                        assert(result@[j2] == r0[j2]);
                    } else {
                        assert(result@[j2] == w0[b]);
                    }
                }
                assert forall|i: int| 0 <= i < result@.len() implies entry_from_store(
                    self@,
                    result@[i],
                ) by {
                    if i < r0.len() {
                        assert(result@[i] == r0[i]);
                    } else {
                        assert(result@[i] == w0[b]);
                    }
                }
                assert forall|i: int| 0 <= i < work@.len() implies entry_from_store(
                    self@,
                    work@[i],
                ) by {
                    if i < b {
                        assert(work@[i] == w0[i]);
                    } else {
                        assert(work@[i] == w0[i + 1]);
                    }
                }
                assert forall|i: int, j2: int| 0 <= i < j2 < work@.len() implies work@[i].wallet_address@
                    != work@[j2].wallet_address@ by {
                    let i0 = if i < b { i } else { i + 1 };
                    let j0 = if j2 < b { j2 } else { j2 + 1 };
                    assert(work@[i] == w0[i0]);
                    assert(work@[j2] == w0[j0]);
                }
                assert forall|i: int, j2: int|
                    0 <= i < result@.len() && 0 <= j2 < work@.len() implies result@[i].wallet_address@
                    != work@[j2].wallet_address@ by {
                    let j0 = if j2 < b { j2 } else { j2 + 1 };
                    assert(work@[j2] == w0[j0]);
                    if i < r0.len() {
                        assert(result@[i] == r0[i]);
                    } else {
                        assert(result@[i] == w0[b]);
                        assert(j0 != b);
                    }
                }
                assert forall|k: Seq<char>| self@.dom().contains(k) implies covered(result@, k)
                    || covered(work@, k) by {
                    if covered(r0, k) {
                        let i = choose|i: int| 0 <= i < r0.len() && r0[i].wallet_address@ == k;
                        assert(result@[i].wallet_address@ == k);
                    } else {
                        let i = choose|i: int| 0 <= i < w0.len() && w0[i].wallet_address@ == k;
                        if i == b {
                            assert(result@[r0.len() as int].wallet_address@ == k);
                        } else if i < b {
                            assert(work@[i].wallet_address@ == k);
                        } else {
                            assert(work@[i - 1].wallet_address@ == k);
                        }
                    }
                }
                assert forall|i: int, j2: int|
                    0 <= i < result@.len() && 0 <= j2 < work@.len() implies result@[i].high_score
                    >= work@[j2].high_score by {
                    let j0 = if j2 < b { j2 } else { j2 + 1 };
                    assert(work@[j2] == w0[j0]);
                    if i < r0.len() {
                        assert(result@[i] == r0[i]);
                    } else {
                        assert(result@[i] == w0[b]);
                    }
                }
            }
        }
        proof {
            assert forall|k: Seq<char>|
                self@.dom().contains(k) && !covered(result@, k) implies result@.len()
                == clamp_top_n(top_n) && (forall|i: int|
                0 <= i < result@.len() ==> self@[k].high_score <= (
                #[trigger] result@[i]).high_score) by {
                assert(covered(work@, k));
                let j = choose|j: int|
                    0 <= j < work@.len() && (#[trigger] work@[j]).wallet_address@ == k;
                assert(work@.len() > 0);
                assert(result@.len() == limit);
                assert(entry_from_store(self@, work@[j]));
                assert forall|i: int| 0 <= i < result@.len() implies self@[k].high_score <= (
                #[trigger] result@[i]).high_score by {
                    assert(result@[i].high_score >= work@[j].high_score);
                }
            }
        }
        result
    }

    /// Direct lookup of one player's entry; no ranking.
    pub fn player(&self, wallet_address: String) -> (r: Option<LeaderboardEntry>)
        requires
            self.wf(),
        ensures
            match r {
                Some(e) => self@.dom().contains(wallet_address@) && entry_matches(
                    e,
                    wallet_address@,
                    self@[wallet_address@],
                ),
                None => !self@.dom().contains(wallet_address@),
            },
    {
        match self.get(&wallet_address) {
            Some(player) => {
                let found = entry_of(wallet_address, player);
                Some(found)
            },
            None => None,
        }
    }
}

} // verus!
