//! Per-player records and the keyed store that holds one record per wallet
//! address.

use vstd::prelude::*;

verus! {

/// Mathematical value of a [`PlayerData`] record: counters and timestamps as
/// unbounded integers, strings as character sequences.
pub struct PlayerDataView {
    pub high_score: int,
    pub games_played: int,
    pub last_played_at: Option<int>,
    pub replay_blob_id: Option<Seq<char>>,
    pub replay_data: Option<Seq<char>>,
    pub display_name: Option<Seq<char>>,
}

impl PlayerDataView {
    /// The zero-valued record that a wallet address implicitly owns before
    /// its first accepted mutation.
    pub open spec fn initial() -> PlayerDataView {
        PlayerDataView {
            high_score: 0,
            games_played: 0,
            last_played_at: None,
            replay_blob_id: None,
            replay_data: None,
            display_name: None,
        }
    }
}

/// Largest accepted replay evidence, in bytes of its UTF-8 form.
pub const MAX_REPLAY_SIZE: usize = 1000000;

/// Longest accepted display name, in characters after trimming.
pub const MAX_DISPLAY_NAME_LEN: usize = 30;

/// Length in bytes of the UTF-8 form of `s`; the measure that bounds replay
/// evidence.
pub open spec fn byte_len(s: Seq<char>) -> nat {
    vstd::utf8::encode_utf8(s).len()
}

/// Record invariant: a positive high score always carries replay evidence,
/// stored evidence respects the size cap, and a stored display name has
/// between one and [`MAX_DISPLAY_NAME_LEN`] characters.
pub open spec fn wf_record(r: PlayerDataView) -> bool {
    &&& 0 <= r.high_score
    &&& 0 <= r.games_played
    &&& (r.high_score > 0 ==> r.replay_data is Some)
    &&& (match r.replay_data {
        Some(e) => byte_len(e) <= MAX_REPLAY_SIZE,
        None => true,
    })
    &&& (match r.display_name {
        Some(n) => 1 <= n.len() <= MAX_DISPLAY_NAME_LEN,
        None => true,
    })
}

/// Player data stored on-chain, one row per wallet address.
#[derive(Debug)]
pub struct PlayerData {
    /// Highest score achieved by this player.
    pub high_score: u32,
    /// Total number of accepted score submissions.
    pub games_played: u32,
    /// Timestamp of the last accepted submission.
    pub last_played_at: Option<u64>,
    /// Identifier of an externally stored replay blob, when one exists.
    pub replay_blob_id: Option<String>,
    /// Replay recording held inline; present whenever `high_score > 0`.
    pub replay_data: Option<String>,
    /// Optional display name; absent means the wallet address is shown.
    pub display_name: Option<String>,
}

impl View for PlayerData {
    type V = PlayerDataView;

    open spec fn view(&self) -> PlayerDataView {
        PlayerDataView {
            high_score: self.high_score as int,
            games_played: self.games_played as int,
            last_played_at: match self.last_played_at {
                Some(t) => Some(t as int),
                None => None,
            },
            replay_blob_id: self.replay_blob_id.deep_view(),
            replay_data: self.replay_data.deep_view(),
            display_name: self.display_name.deep_view(),
        }
    }
}

impl Default for PlayerData {
    /// The zero record: no games, no score, no evidence, no name.
    fn default() -> (d: Self)
        ensures
            d@ == PlayerDataView::initial(),
    {
        PlayerData {
            high_score: 0,
            games_played: 0,
            last_played_at: None,
            replay_blob_id: None,
            replay_data: None,
            display_name: None,
        }
    }
}

impl Clone for PlayerData {
    fn clone(&self) -> (r: Self)
        ensures
            r@ == self@,
    {
        PlayerData {
            high_score: self.high_score,
            games_played: self.games_played,
            last_played_at: self.last_played_at,
            replay_blob_id: match &self.replay_blob_id {
                Some(s) => Some(s.clone()),
                None => None,
            },
            replay_data: match &self.replay_data {
                Some(s) => Some(s.clone()),
                None => None,
            },
            display_name: match &self.display_name {
                Some(s) => Some(s.clone()),
                None => None,
            },
        }
    }
}

/// The map denoted by a sequence of `(address, record)` rows; when an address
/// occurs more than once, the later row wins.
pub open spec fn map_of(rows: Seq<(String, PlayerData)>) -> Map<Seq<char>, PlayerDataView>
    decreases rows.len(),
{
    if rows.len() == 0 {
        Map::empty()
    } else {
        map_of(rows.drop_last()).insert(rows.last().0@, rows.last().1@)
    }
}

/// No two rows share an address.
pub open spec fn distinct_keys(rows: Seq<(String, PlayerData)>) -> bool {
    forall|i: int, j: int| 0 <= i < j < rows.len() ==> rows[i].0@ != rows[j].0@
}

/// A key is in the denoted map exactly when some row carries it.
pub proof fn lemma_map_of_contains(rows: Seq<(String, PlayerData)>, k: Seq<char>)
    ensures
        map_of(rows).dom().contains(k) <==> (exists|i: int|
            0 <= i < rows.len() && rows[i].0@ == k),
    decreases rows.len(),
{
    if rows.len() > 0 {
        let head = rows.drop_last();
        lemma_map_of_contains(head, k);
        if rows.last().0@ == k {
            assert(rows[rows.len() - 1].0@ == k);
        } else {
            if map_of(rows).dom().contains(k) {
                let i = choose|i: int| 0 <= i < head.len() && head[i].0@ == k;
                assert(rows[i].0@ == k);
            }
            if exists|i: int| 0 <= i < rows.len() && rows[i].0@ == k {
                let i = choose|i: int| 0 <= i < rows.len() && rows[i].0@ == k;
                assert(head[i].0@ == k);
            }
        }
    }
}

/// Dropping the last row keeps the keys distinct.
proof fn lemma_distinct_drop_last(rows: Seq<(String, PlayerData)>)
    requires
        distinct_keys(rows),
        rows.len() > 0,
    ensures
        distinct_keys(rows.drop_last()),
{
    let head = rows.drop_last();
    assert forall|i: int, j: int| 0 <= i < j < head.len() implies head[i].0@ != head[j].0@ by {
        assert(head[i] == rows[i]);
        assert(head[j] == rows[j]);
    }
}

/// With distinct keys, each row's address maps to that row's record.
pub proof fn lemma_map_of_index(rows: Seq<(String, PlayerData)>, i: int)
    requires
        distinct_keys(rows),
        0 <= i < rows.len(),
    ensures
        map_of(rows).dom().contains(rows[i].0@),
        map_of(rows)[rows[i].0@] == rows[i].1@,
    decreases rows.len(),
{
    if i == rows.len() - 1 {
    } else {
        let head = rows.drop_last();
        lemma_distinct_drop_last(rows);
        assert(head[i] == rows[i]);
        lemma_map_of_index(head, i);
        assert(rows[i].0@ != rows[rows.len() - 1].0@);
    }
}

/// With distinct keys, the denoted map has exactly one entry per row.
pub proof fn lemma_map_of_len(rows: Seq<(String, PlayerData)>)
    requires
        distinct_keys(rows),
    ensures
        map_of(rows).dom().finite(),
        map_of(rows).dom().len() == rows.len(),
    decreases rows.len(),
{
    broadcast use vstd::set::axiom_set_insert_len;
    broadcast use vstd::set::axiom_set_insert_finite;
    broadcast use vstd::set::axiom_set_empty_finite;

    if rows.len() == 0 {
        assert(map_of(rows).dom() =~= Set::<Seq<char>>::empty());
    } else {
        let head = rows.drop_last();
        let k = rows.last().0@;
        lemma_distinct_drop_last(rows);
        lemma_map_of_len(head);
        lemma_map_of_contains(head, k);
        assert forall|i: int| 0 <= i < head.len() implies head[i].0@ != k by {
            assert(head[i] == rows[i]);
            assert(rows[i].0@ != rows[rows.len() - 1].0@);
        }
        assert(!map_of(head).dom().contains(k));
        assert(map_of(rows).dom() =~= map_of(head).dom().insert(k));
    }
}

/// Removing row `i` removes exactly that row's entry from the denoted map.
pub proof fn lemma_map_of_remove(rows: Seq<(String, PlayerData)>, i: int)
    requires
        distinct_keys(rows),
        0 <= i < rows.len(),
    ensures
        map_of(rows.remove(i)) == map_of(rows).remove(rows[i].0@),
        distinct_keys(rows.remove(i)),
        forall|j: int| 0 <= j < rows.remove(i).len() ==> rows.remove(i)[j].0@ != rows[i].0@,
    decreases rows.len(),
{
    let k = rows[i].0@;
    let r2 = rows.remove(i);
    assert forall|j: int| 0 <= j < r2.len() implies r2[j].0@ != k by {
        if j < i {
            assert(r2[j] == rows[j]);
        } else {
            assert(r2[j] == rows[j + 1]);
        }
    }
    assert forall|a: int, b: int| 0 <= a < b < r2.len() implies r2[a].0@ != r2[b].0@ by {
        assert(r2[a] == (if a < i { rows[a] } else { rows[a + 1] }));
        assert(r2[b] == (if b < i { rows[b] } else { rows[b + 1] }));
    }
    if i == rows.len() - 1 {
        let head = rows.drop_last();
        assert(r2 =~= head);
        lemma_distinct_drop_last(rows);
        lemma_map_of_contains(head, k);
        assert forall|j: int| 0 <= j < head.len() implies head[j].0@ != k by {
            assert(head[j] == rows[j]);
        }
        assert(!map_of(head).dom().contains(k));
        assert(map_of(rows).remove(k) =~= map_of(head));
    } else {
        let head = rows.drop_last();
        lemma_distinct_drop_last(rows);
        assert(head[i] == rows[i]);
        lemma_map_of_remove(head, i);
        assert(r2.last() == rows.last());
        assert(r2.drop_last() =~= head.remove(i));
        let lastk = rows.last().0@;
        let lastv = rows.last().1@;
        assert(lastk != k);
        assert(map_of(r2) == map_of(head.remove(i)).insert(lastk, lastv));
        assert(map_of(head).remove(k).insert(lastk, lastv) =~= map_of(head).insert(
            lastk,
            lastv,
        ).remove(k));
    }
}

/// Appending a row puts its entry into the denoted map.
pub proof fn lemma_map_of_push(rows: Seq<(String, PlayerData)>, p: (String, PlayerData))
    ensures
        map_of(rows.push(p)) == map_of(rows).insert(p.0@, p.1@),
{
    assert(rows.push(p).drop_last() =~= rows);
    assert(rows.push(p).last() == p);
}

/// Application state: a keyed store of player records, one row per wallet
/// address.
pub struct CrossyChainState {
    /// Rows of the store, keyed by wallet address.
    pub players: Vec<(String, PlayerData)>,
}

impl View for CrossyChainState {
    type V = Map<Seq<char>, PlayerDataView>;

    open spec fn view(&self) -> Map<Seq<char>, PlayerDataView> {
        map_of(self.players@)
    }
}

impl CrossyChainState {
    /// Store invariant: each wallet address owns at most one row.
    pub open spec fn wf(&self) -> bool {
        distinct_keys(self.players@)
    }

    /// An empty store.
    pub fn new() -> (s: Self)
        ensures
            s.wf(),
            s@ == Map::<Seq<char>, PlayerDataView>::empty(),
            s.players@.len() == 0,
    {
        CrossyChainState { players: Vec::new() }
    }

    /// Looks up the record stored for `key`.
    pub fn get(&self, key: &String) -> (r: Option<&PlayerData>)
        requires
            self.wf(),
        ensures
            match r {
                Some(p) => self@.dom().contains(key@) && p@ == self@[key@],
                None => !self@.dom().contains(key@),
            },
    {
        let n = self.players.len();
        let mut i: usize = 0;
        while i < n
            invariant
                self.wf(),
                n == self.players@.len(),
                i <= n,
                forall|j: int| 0 <= j < i ==> self.players@[j].0@ != key@,
            decreases n - i,
        {
            if self.players[i].0 == *key {
                proof {
                    lemma_map_of_index(self.players@, i as int);
                }
                return Some(&self.players[i].1);
            }
            i += 1;
        }
        proof {
            lemma_map_of_contains(self.players@, key@);
        }
        None
    }

    /// Stores `value` under `key`, replacing any previous record for that
    /// address.
    pub fn insert(&mut self, key: String, value: PlayerData)
        requires
            old(self).wf(),
        ensures
            final(self).wf(),
            final(self)@ == old(self)@.insert(key@, value@),
            final(self).players@.len() == old(self).players@.len() + (if old(
                self,
            )@.dom().contains(key@) {
                0int
            } else {
                1int
            }),
    {
        let n = self.players.len();
        let mut i: usize = 0;
        while i < n
            invariant
                self == old(self),
                self.wf(),
                n == self.players@.len(),
                i <= n,
                forall|j: int| 0 <= j < i ==> self.players@[j].0@ != key@,
            decreases n - i,
        {
            if self.players[i].0 == key {
                let ghost rows0 = self.players@;
                proof {
                    lemma_map_of_index(rows0, i as int);
                    lemma_map_of_remove(rows0, i as int);
                }
                self.players.remove(i);
                let ghost rows1 = self.players@;
                self.players.push((key, value));
                proof {
                    lemma_map_of_push(rows1, self.players@.last());
                    assert forall|a: int, b: int|
                        0 <= a < b < self.players@.len() implies self.players@[a].0@
                        != self.players@[b].0@ by {
                        if b < self.players@.len() - 1 {
                            assert(self.players@[a] == rows1[a]);
                            assert(self.players@[b] == rows1[b]);
                        } else {
                            assert(self.players@[a] == rows1[a]);
                            assert(rows1[a].0@ != rows0[i as int].0@);
                        }
                    }
                    assert(map_of(rows0).remove(key@).insert(key@, value@) =~= map_of(
                        rows0,
                    ).insert(key@, value@));
                }
                return ;
            }
            i += 1;
        }
        proof {
            lemma_map_of_contains(self.players@, key@);
        }
        let ghost rows0 = self.players@;
        self.players.push((key, value));
        proof {
            lemma_map_of_push(rows0, self.players@.last());
            assert forall|a: int, b: int|
                0 <= a < b < self.players@.len() implies self.players@[a].0@
                != self.players@[b].0@ by {
                if b < self.players@.len() - 1 {
                    assert(self.players@[a] == rows0[a]);
                    assert(self.players@[b] == rows0[b]);
                } else {
                    assert(self.players@[a] == rows0[a]);
                }
            }
        }
    }

    /// Number of stored player records.
    pub fn player_count(&self) -> (n: usize)
        requires
            self.wf(),
        ensures
            n == self@.dom().len(),
            n == self.players@.len(),
    {
        proof {
            lemma_map_of_len(self.players@);
        }
        self.players.len()
    }
}

} // verus!
