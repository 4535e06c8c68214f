//! The score-submission and registration engine: the rules that decide
//! whether a call is accepted and how an accepted call mutates the stored
//! player record.

use crate::state::{
    byte_len, wf_record, CrossyChainState, PlayerData, PlayerDataView, MAX_DISPLAY_NAME_LEN,
    MAX_REPLAY_SIZE,
};
use crate::text::{trim_spec, trim_str};
use vstd::prelude::*;
use vstd::string::StrSliceExecFns;

verus! {

/// Contract messages, replayed from the sequencing log.
pub enum Message {
    /// Save a player's score.
    SaveScore { score: u32, replay_data: Option<String>, timestamp: u64 },
    /// Register a player with an optional display name.
    RegisterPlayer { display_name: Option<String> },
}

/// Contract operations, invoked as direct mutation calls.
pub enum Operation {
    /// Save a player's score.
    SaveScore { score: u32, replay_data: Option<String>, timestamp: u64 },
    /// Register a player with an optional display name.
    RegisterPlayer { display_name: Option<String> },
}

/// Contract errors. Every error is terminal for the call: no state is
/// written on any error path.
#[derive(Clone, Copy, Debug, PartialEq, Eq, Structural)]
pub enum ContractError {
    /// No verified caller identity was supplied.
    Unauthorized,
    /// The submitted score was zero.
    InvalidScore,
    /// A record-breaking score arrived without replay evidence.
    ReplayRequired,
    /// The replay evidence exceeds [`MAX_REPLAY_SIZE`] bytes.
    ReplayTooLarge,
}

/// The record that one score submission leaves behind, or the reason the
/// submission is rejected. A rejected submission leaves no trace; an accepted
/// one always increments the games counter and stamps the submission time,
/// and moves the high score and its evidence together exactly when the score
/// beats the current high score.
pub open spec fn save_score_result(
    cur: PlayerDataView,
    score: u32,
    evidence: Option<Seq<char>>,
    timestamp: u64,
) -> Result<PlayerDataView, ContractError> {
    if score == 0 {
        Err(ContractError::InvalidScore)
    } else if score as int > cur.high_score {
        match evidence {
            None => Err(ContractError::ReplayRequired),
            Some(e) => if byte_len(e) > MAX_REPLAY_SIZE {
                Err(ContractError::ReplayTooLarge)
            } else {
                Ok(
                    PlayerDataView {
                        high_score: score as int,
                        games_played: cur.games_played + 1,
                        last_played_at: Some(timestamp as int),
                        replay_blob_id: cur.replay_blob_id,
                        replay_data: Some(e),
                        display_name: cur.display_name,
                    },
                )
            },
        }
    } else {
        Ok(
            PlayerDataView {
                high_score: cur.high_score,
                games_played: cur.games_played + 1,
                last_played_at: Some(timestamp as int),
                replay_blob_id: cur.replay_blob_id,
                replay_data: cur.replay_data,
                display_name: cur.display_name,
            },
        )
    }
}

/// The record that a registration request leaves behind: a trimmed name of
/// one to [`MAX_DISPLAY_NAME_LEN`] characters is stored, an unusable name is
/// silently ignored, and an absent name clears the stored one.
pub open spec fn register_result(
    cur: PlayerDataView,
    display_name: Option<Seq<char>>,
) -> PlayerDataView {
    match display_name {
        Some(name) => {
            let t = trim_spec(name);
            if 1 <= t.len() && t.len() <= MAX_DISPLAY_NAME_LEN {
                PlayerDataView {
                    high_score: cur.high_score,
                    games_played: cur.games_played,
                    last_played_at: cur.last_played_at,
                    replay_blob_id: cur.replay_blob_id,
                    replay_data: cur.replay_data,
                    display_name: Some(t),
                }
            } else {
                cur
            }
        },
        None => PlayerDataView {
            high_score: cur.high_score,
            games_played: cur.games_played,
            last_played_at: cur.last_played_at,
            replay_blob_id: cur.replay_blob_id,
            replay_data: cur.replay_data,
            display_name: None,
        },
    }
}

/// The outcome of an executable update, seen at the specification level.
pub open spec fn result_view(r: Result<PlayerData, ContractError>) -> Result<
    PlayerDataView,
    ContractError,
> {
    match r {
        Ok(p) => Ok(p@),
        Err(e) => Err(e),
    }
}

/// Applies one score submission to a player record. Pure: the caller decides
/// where the record comes from and whether the result is persisted.
pub fn save_score_update(
    current: &PlayerData,
    score: u32,
    replay_data: Option<String>,
    timestamp: u64,
) -> (r: Result<PlayerData, ContractError>)
    requires
        save_score_result(current@, score, replay_data.deep_view(), timestamp) is Ok
            ==> current.games_played < u32::MAX,
    ensures
        result_view(r) == save_score_result(current@, score, replay_data.deep_view(), timestamp),
{
    if score == 0 {
        return Err(ContractError::InvalidScore);
    }
    if score > current.high_score {
        match replay_data {
            None => Err(ContractError::ReplayRequired),
            Some(replay_json) => {
                if replay_json.as_str().as_bytes().len() > MAX_REPLAY_SIZE {
                    Err(ContractError::ReplayTooLarge)
                } else {
                    let mut player = current.clone();
                    player.high_score = score;
                    player.replay_data = Some(replay_json);
                    player.games_played = player.games_played + 1;
                    player.last_played_at = Some(timestamp);
                    Ok(player)
                }
            },
        }
    } else {
        let mut player = current.clone();
        player.games_played = player.games_played + 1;
        player.last_played_at = Some(timestamp);
        Ok(player)
    }
}

/// The record currently owned by `who`: the stored one, or the zero record
/// when `who` was never written.
pub open spec fn record_or_default(
    m: Map<Seq<char>, PlayerDataView>,
    who: Seq<char>,
) -> PlayerDataView {
    if m.dom().contains(who) {
        m[who]
    } else {
        PlayerDataView::initial()
    }
}

/// Outcome of a save-score call on the whole store: the new store on success,
/// the rejection reason otherwise. The caller is authenticated before
/// anything else; only then do the submission rules of [`save_score_result`]
/// decide.
pub open spec fn save_score_outcome(
    m: Map<Seq<char>, PlayerDataView>,
    signer: Option<Seq<char>>,
    score: u32,
    evidence: Option<Seq<char>>,
    timestamp: u64,
) -> Result<Map<Seq<char>, PlayerDataView>, ContractError> {
    match signer {
        None => Err(ContractError::Unauthorized),
        Some(who) => match save_score_result(record_or_default(m, who), score, evidence, timestamp) {
            Ok(r) => Ok(m.insert(who, r)),
            Err(e) => Err(e),
        },
    }
}

/// Outcome of a registration call on the whole store: always a write once the
/// caller is authenticated, even when nothing changed.
pub open spec fn register_outcome(
    m: Map<Seq<char>, PlayerDataView>,
    signer: Option<Seq<char>>,
    display_name: Option<Seq<char>>,
) -> Result<Map<Seq<char>, PlayerDataView>, ContractError> {
    match signer {
        None => Err(ContractError::Unauthorized),
        Some(who) => Ok(m.insert(who, register_result(record_or_default(m, who), display_name))),
    }
}

/// Outcome of one operation on the whole store.
pub open spec fn operation_outcome(
    m: Map<Seq<char>, PlayerDataView>,
    signer: Option<Seq<char>>,
    op: Operation,
) -> Result<Map<Seq<char>, PlayerDataView>, ContractError> {
    match op {
        Operation::SaveScore { score, replay_data, timestamp } => save_score_outcome(
            m,
            signer,
            score,
            replay_data.deep_view(),
            timestamp,
        ),
        Operation::RegisterPlayer { display_name } => register_outcome(
            m,
            signer,
            display_name.deep_view(),
        ),
    }
}

/// The operation that a replayed message stands for; both are applied by the
/// same rules.
pub open spec fn operation_of_message(msg: Message) -> Operation {
    match msg {
        Message::SaveScore { score, replay_data, timestamp } => Operation::SaveScore {
            score,
            replay_data,
            timestamp,
        },
        Message::RegisterPlayer { display_name } => Operation::RegisterPlayer { display_name },
    }
}

/// Machine limit: where a submission would be accepted, one more game must
/// fit the caller's 32-bit games counter. A rejected submission touches no
/// counter, so it is served from any state.
pub open spec fn counter_has_room(
    m: Map<Seq<char>, PlayerDataView>,
    signer: Option<Seq<char>>,
    op: Operation,
) -> bool {
    match (signer, op) {
        (Some(who), Operation::SaveScore { score, replay_data, timestamp }) => save_score_result(
            record_or_default(m, who),
            score,
            replay_data.deep_view(),
            timestamp,
        ) is Ok ==> record_or_default(m, who).games_played < u32::MAX,
        _ => true,
    }
}

/// Applies a registration request to a player record. Registration never
/// fails once the caller is authenticated: an unusable name degrades to a
/// silent no-op.
pub fn register_update(current: &PlayerData, display_name: Option<String>) -> (r: PlayerData)
    ensures
        r@ == register_result(current@, display_name.deep_view()),
{
    let mut player = current.clone();
    match display_name {
        Some(name) => {
            let trimmed = trim_str(name.as_str());
            let tlen = trimmed.as_str().unicode_len();
            if 1 <= tlen && tlen <= MAX_DISPLAY_NAME_LEN {
                player.display_name = Some(trimmed);
            }
        },
        None => {
            player.display_name = None;
        },
    }
    player
}

/// A zero score is rejected as `InvalidScore`, whatever the record, the
/// evidence and the time.
pub proof fn lemma_zero_score_rejected(
    cur: PlayerDataView,
    evidence: Option<Seq<char>>,
    timestamp: u64,
)
    ensures
        save_score_result(cur, 0, evidence, timestamp) == Err::<PlayerDataView, ContractError>(
            ContractError::InvalidScore,
        ),
{
}

/// A record-breaking score without evidence is rejected as `ReplayRequired`.
pub proof fn lemma_new_high_requires_evidence(cur: PlayerDataView, score: u32, timestamp: u64)
    requires
        0 <= cur.high_score < score as int,
    ensures
        save_score_result(cur, score, None, timestamp) == Err::<PlayerDataView, ContractError>(
            ContractError::ReplayRequired,
        ),
{
}

/// Evidence over the size cap on a record-breaking score is rejected as
/// `ReplayTooLarge`.
pub proof fn lemma_oversized_evidence_rejected(
    cur: PlayerDataView,
    score: u32,
    evidence: Seq<char>,
    timestamp: u64,
)
    requires
        0 <= cur.high_score < score as int,
        byte_len(evidence) > MAX_REPLAY_SIZE,
    ensures
        save_score_result(cur, score, Some(evidence), timestamp) == Err::<
            PlayerDataView,
            ContractError,
        >(ContractError::ReplayTooLarge),
{
}

/// A positive score that does not beat the current high score is accepted and
/// changes exactly the games counter and the last-played time; the high score
/// and its evidence stay untouched.
pub proof fn lemma_non_record_submission(
    cur: PlayerDataView,
    score: u32,
    evidence: Option<Seq<char>>,
    timestamp: u64,
)
    requires
        1 <= score,
        score as int <= cur.high_score,
    ensures
        save_score_result(cur, score, evidence, timestamp) == Ok::<PlayerDataView, ContractError>(
            (PlayerDataView {
                high_score: cur.high_score,
                games_played: cur.games_played + 1,
                last_played_at: Some(timestamp as int),
                replay_blob_id: cur.replay_blob_id,
                replay_data: cur.replay_data,
                display_name: cur.display_name,
            }),
        ),
{
}

/// An accepted submission raises the high score exactly to a record-breaking
/// score and never lowers it, increments the games counter by one, stamps the
/// submission time, and preserves the record invariant.
pub proof fn lemma_accepted_submission_step(
    cur: PlayerDataView,
    score: u32,
    evidence: Option<Seq<char>>,
    timestamp: u64,
    next: PlayerDataView,
)
    requires
        0 <= cur.high_score,
        save_score_result(cur, score, evidence, timestamp) == Ok::<PlayerDataView, ContractError>(
            next,
        ),
    ensures
        next.high_score == if score as int > cur.high_score {
            score as int
        } else {
            cur.high_score
        },
        next.high_score >= cur.high_score,
        next.games_played == cur.games_played + 1,
        next.last_played_at == Some(timestamp as int),
        next.display_name == cur.display_name,
        wf_record(cur) ==> wf_record(next),
{
}

/// Registration never touches the score fields, preserves the record
/// invariant, silently ignores an unusable name, and an absent name clears
/// the stored one.
pub proof fn lemma_register_step(cur: PlayerDataView, display_name: Option<Seq<char>>)
    ensures
        (register_result(cur, display_name)).high_score == cur.high_score,
        (register_result(cur, display_name)).games_played == cur.games_played,
        (register_result(cur, display_name)).last_played_at == cur.last_played_at,
        (register_result(cur, display_name)).replay_blob_id == cur.replay_blob_id,
        (register_result(cur, display_name)).replay_data == cur.replay_data,
        display_name is None ==> (register_result(cur, display_name)).display_name is None,
        (match display_name {
            Some(n) => !(1 <= trim_spec(n).len() && trim_spec(n).len() <= MAX_DISPLAY_NAME_LEN)
                ==> (register_result(cur, display_name)).display_name == cur.display_name,
            None => true,
        }),
        wf_record(cur) ==> wf_record(register_result(cur, display_name)),
{
}

/// A score submission, at the specification level.
pub struct SubmissionView {
    pub score: u32,
    pub evidence: Option<Seq<char>>,
    pub timestamp: u64,
}

/// Runs submissions left to right against one record; `None` as soon as one
/// is rejected.
pub open spec fn apply_submissions(
    cur: PlayerDataView,
    subs: Seq<SubmissionView>,
) -> Option<PlayerDataView>
    decreases subs.len(),
{
    if subs.len() == 0 {
        Some(cur)
    } else {
        match save_score_result(cur, subs[0].score, subs[0].evidence, subs[0].timestamp) {
            Ok(next) => apply_submissions(next, subs.drop_first()),
            Err(_) => None,
        }
    }
}

/// The largest score among `subs`; zero when there are none.
pub open spec fn max_score(subs: Seq<SubmissionView>) -> int
    decreases subs.len(),
{
    if subs.len() == 0 {
        0
    } else {
        let rest = max_score(subs.drop_first());
        if subs[0].score as int >= rest {
            subs[0].score as int
        } else {
            rest
        }
    }
}

proof fn lemma_max_score_nonneg(subs: Seq<SubmissionView>)
    ensures
        max_score(subs) >= 0,
    decreases subs.len(),
{
    if subs.len() > 0 {
        lemma_max_score_nonneg(subs.drop_first());
    }
}

proof fn lemma_submission_run_stats(
    cur: PlayerDataView,
    subs: Seq<SubmissionView>,
    end: PlayerDataView,
)
    requires
        0 <= cur.high_score,
        apply_submissions(cur, subs) == Some(end),
    ensures
        end.games_played == cur.games_played + subs.len(),
        end.high_score == if max_score(subs) > cur.high_score {
            max_score(subs)
        } else {
            cur.high_score
        },
    decreases subs.len(),
{
    if subs.len() > 0 {
        match save_score_result(cur, subs[0].score, subs[0].evidence, subs[0].timestamp) {
            Ok(next) => {
                lemma_accepted_submission_step(
                    cur,
                    subs[0].score,
                    subs[0].evidence,
                    subs[0].timestamp,
                    next,
                );
                lemma_submission_run_stats(next, subs.drop_first(), end);
            },
            Err(_) => {
                assert(false);
            },
        }
    }
}

/// After any run of accepted submissions starting from the zero record, the
/// high score is the largest submitted score and the games counter is the
/// number of submissions.
pub proof fn lemma_accepted_submissions_stats(subs: Seq<SubmissionView>, end: PlayerDataView)
    requires
        apply_submissions(PlayerDataView::initial(), subs) == Some(end),
    ensures
        end.high_score == max_score(subs),
        end.games_played == subs.len(),
{
    lemma_max_score_nonneg(subs);
    lemma_submission_run_stats(PlayerDataView::initial(), subs, end);
}

/// Every record that a successful operation leaves in the store is
/// well-formed, provided every stored record was.
pub proof fn lemma_operation_preserves_wf_records(
    m: Map<Seq<char>, PlayerDataView>,
    signer: Option<Seq<char>>,
    op: Operation,
    m2: Map<Seq<char>, PlayerDataView>,
)
    requires
        forall|k: Seq<char>| m.dom().contains(k) ==> wf_record(#[trigger] m[k]),
        operation_outcome(m, signer, op) == Ok::<Map<Seq<char>, PlayerDataView>, ContractError>(m2),
    ensures
        forall|k: Seq<char>| m2.dom().contains(k) ==> wf_record(#[trigger] m2[k]),
{
    let who = signer->Some_0;
    let cur = record_or_default(m, who);
    assert(wf_record(cur));
    match op {
        Operation::SaveScore { score, replay_data, timestamp } => {
            let next = save_score_result(cur, score, replay_data.deep_view(), timestamp)->Ok_0;
            lemma_accepted_submission_step(
                cur,
                score,
                replay_data.deep_view(),
                timestamp,
                next,
            );
            assert(m2 == m.insert(who, next));
        },
        Operation::RegisterPlayer { display_name } => {
            lemma_register_step(cur, display_name.deep_view());
            assert(m2 == m.insert(who, register_result(cur, display_name.deep_view())));
        },
    }
}

/// The contract: owns the keyed store and applies operations and messages on
/// behalf of an authenticated caller. The caller identity comes from the
/// surrounding sequencing layer; an absent identity is rejected.
pub struct CrossyChainContract {
    /// The keyed store of player records.
    pub state: CrossyChainState,
}

impl View for CrossyChainContract {
    type V = Map<Seq<char>, PlayerDataView>;

    open spec fn view(&self) -> Map<Seq<char>, PlayerDataView> {
        self.state@
    }
}

impl CrossyChainContract {
    /// The store invariant carries over to the contract.
    pub open spec fn wf(&self) -> bool {
        self.state.wf()
    }

    /// Wraps an existing store.
    pub fn new(state: CrossyChainState) -> (c: Self)
        ensures
            c.state == state,
    {
        CrossyChainContract { state }
    }

    /// Direct access to the store.
    pub fn state_mut(&mut self) -> (r: &mut CrossyChainState)
        ensures
            *r == old(self).state,
            final(self).state == *final(r),
    {
        &mut self.state
    }

    /// Applies one operation for the caller that `signer` authenticates.
    /// Exactly one store write happens on success; none on any error path.
    pub fn execute_operation(&mut self, signer: Option<String>, operation: Operation) -> (r: Result<
        (),
        ContractError,
    >)
        requires
            old(self).wf(),
            counter_has_room(old(self)@, signer.deep_view(), operation),
        ensures
            final(self).wf(),
            match operation_outcome(old(self)@, signer.deep_view(), operation) {
                Ok(m2) => r == Ok::<(), ContractError>(()) && final(self)@ == m2,
                Err(e) => r == Err::<(), ContractError>(e) && final(self)@ == old(self)@,
            },
    {
        match operation {
            Operation::SaveScore { score, replay_data, timestamp } => {
                let sender = match signer {
                    Some(owner) => owner,
                    None => { return Err(ContractError::Unauthorized) },
                };
                let current = match self.state.get(&sender) {
                    Some(player) => player.clone(),
                    None => PlayerData::default(),
                };
                match save_score_update(&current, score, replay_data, timestamp) {
                    Ok(updated) => {
                        self.state.insert(sender, updated);
                        Ok(())
                    },
                    Err(e) => Err(e),
                }
            },
            Operation::RegisterPlayer { display_name } => {
                let sender = match signer {
                    Some(owner) => owner,
                    None => { return Err(ContractError::Unauthorized) },
                };
                let current = match self.state.get(&sender) {
                    Some(player) => player.clone(),
                    None => PlayerData::default(),
                };
                let updated = register_update(&current, display_name);
                self.state.insert(sender, updated);
                Ok(())
            },
        }
    }

    /// Applies one replayed message: the same validation and update rules as
    /// the direct operation with the same payload.
    pub fn execute_message(&mut self, signer: Option<String>, message: Message) -> (r: Result<
        (),
        ContractError,
    >)
        requires
            old(self).wf(),
            counter_has_room(old(self)@, signer.deep_view(), operation_of_message(message)),
        ensures
            final(self).wf(),
            match operation_outcome(old(self)@, signer.deep_view(), operation_of_message(message)) {
                Ok(m2) => r == Ok::<(), ContractError>(()) && final(self)@ == m2,
                Err(e) => r == Err::<(), ContractError>(e) && final(self)@ == old(self)@,
            },
    {
        match message {
            Message::SaveScore { score, replay_data, timestamp } => self.execute_operation(
                signer,
                Operation::SaveScore { score, replay_data, timestamp },
            ),
            Message::RegisterPlayer { display_name } => self.execute_operation(
                signer,
                Operation::RegisterPlayer { display_name },
            ),
        }
    }
}

} // verus!
