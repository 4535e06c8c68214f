use crossy_chain::{
    register_precheck, register_update, save_score_update, trim_str, ContractError,
    CrossyChainContract, CrossyChainState, Message, Operation, PlayerData,
};

fn contract() -> CrossyChainContract {
    CrossyChainContract::new(CrossyChainState::new())
}

fn submit(
    c: &mut CrossyChainContract,
    who: &str,
    score: u32,
    evidence: Option<&str>,
    ts: u64,
) -> Result<(), ContractError> {
    c.execute_operation(
        Some(who.to_string()),
        Operation::SaveScore {
            score,
            replay_data: evidence.map(|s| s.to_string()),
            timestamp: ts,
        },
    )
}

fn register(
    c: &mut CrossyChainContract,
    who: &str,
    name: Option<&str>,
) -> Result<(), ContractError> {
    c.execute_operation(
        Some(who.to_string()),
        Operation::RegisterPlayer {
            display_name: name.map(|s| s.to_string()),
        },
    )
}

fn record(c: &CrossyChainContract, who: &str) -> PlayerData {
    c.state.get(&who.to_string()).expect("record should exist").clone()
}

#[test]
fn p9_first_submission_without_evidence_is_rejected() {
    let mut c = contract();
    let r = submit(&mut c, "W1", 10, None, 100);
    assert_eq!(r, Err(ContractError::ReplayRequired));
    assert!(c.state.get(&"W1".to_string()).is_none());
    assert_eq!(c.state.player_count(), 0);
}

#[test]
fn p10_record_then_non_record() {
    let mut c = contract();
    assert_eq!(submit(&mut c, "W1", 10, Some("replay-A"), 100), Ok(()));
    let p = record(&c, "W1");
    assert_eq!(p.high_score, 10);
    assert_eq!(p.games_played, 1);
    assert_eq!(p.last_played_at, Some(100));
    assert_eq!(p.replay_data.as_deref(), Some("replay-A"));

    assert_eq!(submit(&mut c, "W1", 5, None, 200), Ok(()));
    let p = record(&c, "W1");
    assert_eq!(p.high_score, 10);
    assert_eq!(p.games_played, 2);
    assert_eq!(p.last_played_at, Some(200));
    assert_eq!(p.replay_data.as_deref(), Some("replay-A"));
}

#[test]
fn p2_zero_score_rejected_and_nothing_written() {
    let mut c = contract();
    assert_eq!(submit(&mut c, "W1", 10, Some("r"), 100), Ok(()));
    let r = submit(&mut c, "W1", 0, Some("r"), 200);
    assert_eq!(r, Err(ContractError::InvalidScore));
    let p = record(&c, "W1");
    assert_eq!(p.games_played, 1);
    assert_eq!(p.last_played_at, Some(100));
}

#[test]
fn unauthenticated_zero_score_is_rejected_as_unauthorized() {
    // Authentication comes first: even a zero score is answered with
    // `Unauthorized` when no verified caller identity is supplied.
    let mut c = contract();
    let r = c.execute_operation(
        None,
        Operation::SaveScore {
            score: 0,
            replay_data: None,
            timestamp: 1,
        },
    );
    assert_eq!(r, Err(ContractError::Unauthorized));
    assert_eq!(c.state.player_count(), 0);
}

#[test]
fn unauthenticated_calls_are_rejected() {
    let mut c = contract();
    let r = c.execute_operation(
        None,
        Operation::SaveScore {
            score: 5,
            replay_data: Some("r".to_string()),
            timestamp: 1,
        },
    );
    assert_eq!(r, Err(ContractError::Unauthorized));
    let r = c.execute_operation(
        None,
        Operation::RegisterPlayer {
            display_name: Some("bob".to_string()),
        },
    );
    assert_eq!(r, Err(ContractError::Unauthorized));
    assert_eq!(c.state.player_count(), 0);
}

#[test]
fn p3_new_high_without_evidence_rejected() {
    let mut c = contract();
    assert_eq!(submit(&mut c, "W1", 10, Some("first"), 100), Ok(()));
    let r = submit(&mut c, "W1", 20, None, 200);
    assert_eq!(r, Err(ContractError::ReplayRequired));
    let p = record(&c, "W1");
    assert_eq!(p.high_score, 10);
    assert_eq!(p.games_played, 1);
    assert_eq!(p.last_played_at, Some(100));
    assert_eq!(p.replay_data.as_deref(), Some("first"));
}

#[test]
fn p4_oversized_evidence_rejected() {
    let mut c = contract();
    let big = "a".repeat(1_000_001);
    let r = submit(&mut c, "W1", 10, Some(&big), 100);
    assert_eq!(r, Err(ContractError::ReplayTooLarge));
    assert!(c.state.get(&"W1".to_string()).is_none());
}

#[test]
fn evidence_at_exactly_the_cap_is_accepted() {
    let mut c = contract();
    let cap = "a".repeat(1_000_000);
    assert_eq!(submit(&mut c, "W1", 10, Some(&cap), 100), Ok(()));
    let p = record(&c, "W1");
    assert_eq!(p.high_score, 10);
    assert_eq!(p.replay_data.map(|s| s.len()), Some(1_000_000));
}

#[test]
fn evidence_size_counts_bytes_not_chars() {
    let mut c = contract();
    // 250_001 four-byte characters: over the cap in bytes, under it in chars.
    let big = "\u{10348}".repeat(250_001);
    assert_eq!(big.chars().count(), 250_001);
    let r = submit(&mut c, "W1", 10, Some(&big), 100);
    assert_eq!(r, Err(ContractError::ReplayTooLarge));
}

#[test]
fn p5_non_record_updates_counters_only() {
    let mut c = contract();
    assert_eq!(submit(&mut c, "W1", 50, Some("proof-50"), 100), Ok(()));
    assert_eq!(submit(&mut c, "W1", 30, Some("ignored"), 200), Ok(()));
    let p = record(&c, "W1");
    assert_eq!(p.high_score, 50);
    assert_eq!(p.replay_data.as_deref(), Some("proof-50"));
    assert_eq!(p.games_played, 2);
    assert_eq!(p.last_played_at, Some(200));
}

#[test]
fn equal_score_is_not_a_record() {
    let mut c = contract();
    assert_eq!(submit(&mut c, "W1", 10, Some("r"), 100), Ok(()));
    assert_eq!(submit(&mut c, "W1", 10, None, 200), Ok(()));
    let p = record(&c, "W1");
    assert_eq!(p.high_score, 10);
    assert_eq!(p.games_played, 2);
    assert_eq!(p.replay_data.as_deref(), Some("r"));
}

#[test]
fn p1_high_score_is_max_and_games_count_submissions() {
    let mut c = contract();
    assert_eq!(submit(&mut c, "W1", 10, Some("r10"), 1), Ok(()));
    assert_eq!(submit(&mut c, "W1", 30, Some("r30"), 2), Ok(()));
    assert_eq!(submit(&mut c, "W1", 20, None, 3), Ok(()));
    assert_eq!(submit(&mut c, "W1", 5, None, 4), Ok(()));
    let p = record(&c, "W1");
    assert_eq!(p.high_score, 30);
    assert_eq!(p.games_played, 4);
    assert_eq!(p.replay_data.as_deref(), Some("r30"));
}

#[test]
fn p7_name_of_31_chars_is_a_silent_noop() {
    let mut c = contract();
    assert_eq!(register(&mut c, "W1", Some("alice")), Ok(()));
    let long = "a".repeat(31);
    assert_eq!(register(&mut c, "W1", Some(&long)), Ok(()));
    let p = record(&c, "W1");
    assert_eq!(p.display_name.as_deref(), Some("alice"));
}

#[test]
fn name_of_30_chars_is_accepted() {
    let mut c = contract();
    let name = "b".repeat(30);
    assert_eq!(register(&mut c, "W1", Some(&name)), Ok(()));
    let p = record(&c, "W1");
    assert_eq!(p.display_name.as_deref(), Some(name.as_str()));
}

#[test]
fn p8_absent_name_clears_the_stored_one() {
    let mut c = contract();
    assert_eq!(register(&mut c, "W1", Some("bob")), Ok(()));
    assert_eq!(register(&mut c, "W1", None), Ok(()));
    let p = record(&c, "W1");
    assert_eq!(p.display_name, None);
}

#[test]
fn registration_trims_the_stored_name() {
    let mut c = contract();
    assert_eq!(register(&mut c, "W1", Some("  carol  ")), Ok(()));
    let p = record(&c, "W1");
    assert_eq!(p.display_name.as_deref(), Some("carol"));
}

#[test]
fn whitespace_only_name_is_a_noop_but_still_persists() {
    let mut c = contract();
    assert_eq!(register(&mut c, "W1", Some("   ")), Ok(()));
    let p = record(&c, "W1");
    assert_eq!(p.display_name, None);
    assert_eq!(c.state.player_count(), 1);
}

#[test]
fn registration_never_touches_score_fields() {
    let mut c = contract();
    assert_eq!(submit(&mut c, "W1", 40, Some("proof"), 100), Ok(()));
    assert_eq!(register(&mut c, "W1", Some("dora")), Ok(()));
    let p = record(&c, "W1");
    assert_eq!(p.high_score, 40);
    assert_eq!(p.games_played, 1);
    assert_eq!(p.last_played_at, Some(100));
    assert_eq!(p.replay_data.as_deref(), Some("proof"));
    assert_eq!(p.display_name.as_deref(), Some("dora"));
}

#[test]
fn messages_apply_the_same_rules_as_operations() {
    let mut by_op = contract();
    let mut by_msg = contract();
    assert_eq!(submit(&mut by_op, "W1", 10, Some("r"), 100), Ok(()));
    let r = by_msg.execute_message(
        Some("W1".to_string()),
        Message::SaveScore {
            score: 10,
            replay_data: Some("r".to_string()),
            timestamp: 100,
        },
    );
    assert_eq!(r, Ok(()));
    let a = record(&by_op, "W1");
    let b = record(&by_msg, "W1");
    assert_eq!(a.high_score, b.high_score);
    assert_eq!(a.games_played, b.games_played);
    assert_eq!(a.last_played_at, b.last_played_at);
    assert_eq!(a.replay_data, b.replay_data);

    let r = by_msg.execute_message(
        None,
        Message::RegisterPlayer {
            display_name: None,
        },
    );
    assert_eq!(r, Err(ContractError::Unauthorized));
    let r = by_msg.execute_message(
        Some("W1".to_string()),
        Message::SaveScore {
            score: 20,
            replay_data: None,
            timestamp: 200,
        },
    );
    assert_eq!(r, Err(ContractError::ReplayRequired));
}

#[test]
fn save_score_update_is_pure() {
    let zero = PlayerData::default();
    assert_eq!(zero.high_score, 0);
    assert_eq!(zero.games_played, 0);
    assert_eq!(zero.last_played_at, None);
    assert_eq!(zero.replay_data, None);
    assert_eq!(zero.display_name, None);

    let r = save_score_update(&zero, 10, None, 100);
    assert!(matches!(r, Err(ContractError::ReplayRequired)));
    let p = save_score_update(&zero, 10, Some("r".to_string()), 100).expect("accepted");
    assert_eq!(p.high_score, 10);
    assert_eq!(p.games_played, 1);
    assert_eq!(p.last_played_at, Some(100));
    assert_eq!(zero.high_score, 0);
}

#[test]
fn register_update_is_pure() {
    let zero = PlayerData::default();
    let p = register_update(&zero, Some(" eve ".to_string()));
    assert_eq!(p.display_name.as_deref(), Some("eve"));
    let p2 = register_update(&p, None);
    assert_eq!(p2.display_name, None);
    assert_eq!(zero.display_name, None);
}

#[test]
fn trim_str_removes_surrounding_whitespace() {
    assert_eq!(trim_str("  bob  "), "bob");
    assert_eq!(trim_str("\t\n x \u{3000}"), "x");
    assert_eq!(trim_str("   "), "");
    assert_eq!(trim_str(""), "");
    assert_eq!(trim_str("no-ws"), "no-ws");
    assert_eq!(trim_str(" a b "), "a b");
}

#[test]
fn register_precheck_mirrors_the_edge_validation() {
    assert!(register_precheck(&None));
    assert!(register_precheck(&Some("bob".to_string())));
    assert!(!register_precheck(&Some("   ".to_string())));
    assert!(!register_precheck(&Some("a".repeat(31))));
    assert!(register_precheck(&Some("a".repeat(30))));
}
