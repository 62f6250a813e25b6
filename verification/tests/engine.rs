use that_mafia_game::game::game_v1::GameV1;
use that_mafia_game::game::{
    Action, GameError, GamePhase, Player, Role, Verdict, NOBODY_CHAT_ID, VOTE_OPTION_NOBODY,
};

fn player(id: i64, name: &str, role: Role) -> Player {
    Player {
        chat_id: id,
        username: name.to_string(),
        role,
        is_alive: true,
        is_connected: true,
    }
}

/// Five players P1..P5 with P1 as the Mafia member, at the start of Night.
fn five_player_game() -> GameV1 {
    let players = vec![
        player(1, "P1", Role::Mafia),
        player(2, "P2", Role::Civilian),
        player(3, "P3", Role::Civilian),
        player(4, "P4", Role::Civilian),
        player(5, "P5", Role::Civilian),
    ];
    GameV1::from_parts(
        players,
        GamePhase::Night { actions: Vec::new() },
        None,
        "Welcome to the Mafia Game".to_string(),
        Vec::new(),
    )
    .expect("a fresh five player roster is well formed")
}

fn vote_options_for(players: &[(i64, &str)]) -> Vec<(i64, String)> {
    let mut options: Vec<(i64, String)> = players
        .iter()
        .map(|(id, name)| (*id, name.to_string()))
        .collect();
    options.push((VOTE_OPTION_NOBODY, "Nobody".to_string()));
    options
}

#[test]
fn night_action_is_recorded_for_mafia() {
    let mut g = five_player_game();
    assert_eq!(g.add_night_action(1, 2), Ok(()));
    match g.get_phase() {
        GamePhase::Night { actions } => {
            assert_eq!(actions.len(), 1);
            assert_eq!(actions[0], Action::Kill { source: 1, target: 2 });
        }
        _ => panic!("expected Night"),
    }
}

#[test]
fn night_action_is_idempotent_per_actor() {
    let mut g = five_player_game();
    assert_eq!(g.add_night_action(1, 2), Ok(()));
    assert_eq!(g.add_night_action(1, 3), Ok(()));
    match g.get_phase() {
        GamePhase::Night { actions } => {
            assert_eq!(actions.len(), 1);
            assert_eq!(actions[0], Action::Kill { source: 1, target: 3 });
        }
        _ => panic!("expected Night"),
    }
    let ended = g.end_phase();
    assert!(ended.is_some());
    assert_eq!(g.get_transition_message().as_str(), "P3 died last night");
}

#[test]
fn civilian_night_action_is_a_noop() {
    let mut g = five_player_game();
    assert_eq!(g.add_night_action(2, 3), Ok(()));
    match g.get_phase() {
        GamePhase::Night { actions } => assert!(actions.is_empty()),
        _ => panic!("expected Night"),
    }
}

#[test]
fn night_action_rejects_illegal_targets() {
    let mut g = five_player_game();
    // a Mafia member is not a legal kill target
    assert_eq!(g.add_night_action(1, 1), Err(GameError::InvalidTarget));
    // unknown ids are rejected, as actor and as target
    assert_eq!(g.add_night_action(99, 2), Err(GameError::InvalidTarget));
    assert_eq!(g.add_night_action(1, 99), Err(GameError::InvalidTarget));
    // the sentinel is always allowed
    assert_eq!(g.add_night_action(1, NOBODY_CHAT_ID), Ok(()));
}

#[test]
fn night_does_not_end_before_mafia_acted() {
    let mut g = five_player_game();
    assert!(g.end_phase().is_none());
}

#[test]
fn night_kill_moves_to_voting_with_survivor_ballot() {
    let mut g = five_player_game();
    assert_eq!(g.add_night_action(1, 2), Ok(()));
    let next = g.end_phase().expect("night was complete");
    assert!(matches!(next, GamePhase::Voting { .. }));
    assert_eq!(g.get_transition_message().as_str(), "P2 died last night");
    let options = g.get_vote_options().expect("voting is active");
    assert_eq!(
        options,
        vote_options_for(&[(1, "P1"), (3, "P3"), (4, "P4"), (5, "P5")])
    );
    let voters = g.get_voters().expect("voting is active");
    let voter_ids: Vec<i64> = voters.iter().map(|p| p.chat_id).collect();
    assert_eq!(voter_ids, vec![1, 3, 4, 5]);
}

#[test]
fn sentinel_kill_spares_everyone() {
    let mut g = five_player_game();
    assert_eq!(g.add_night_action(1, NOBODY_CHAT_ID), Ok(()));
    g.end_phase().expect("night was complete");
    assert_eq!(g.get_transition_message().as_str(), "Nobody died last night");
    let voters = g.get_voters().expect("voting is active");
    assert_eq!(voters.len(), 5);
}

#[test]
fn night_prompts_give_mafia_the_kill_menu() {
    let g = five_player_game();
    let prompts = g.get_night_actions();
    assert_eq!(prompts.len(), 5);
    let (id, (text, options)) = &prompts[0];
    assert_eq!(*id, 1);
    assert_eq!(text.as_str(), "You are a Mafia. Pick a victim to kil:");
    assert_eq!(
        *options,
        vote_options_for(&[(2, "P2"), (3, "P3"), (4, "P4"), (5, "P5")])
    );
    let (id, (text, options)) = &prompts[1];
    assert_eq!(*id, 2);
    assert_eq!(text.as_str(), "You are a Civilian");
    assert!(options.is_empty());
}

#[test]
fn votes_resolve_indexes_and_drop_duplicates() {
    let mut g = five_player_game();
    assert_eq!(g.add_night_action(1, NOBODY_CHAT_ID), Ok(()));
    g.end_phase().expect("night was complete");
    // ballot: P1 P2 P3 P4 P5 Nobody; duplicate picks collapse
    assert_eq!(g.add_vote(2, vec![0, 0, 1]), Ok(()));
    match g.get_phase() {
        GamePhase::Voting { votes, .. } => {
            assert_eq!(votes.len(), 1);
            assert_eq!(votes[0].0, 2);
            assert_eq!(votes[0].1, vec![1, 2]);
        }
        _ => panic!("expected Voting"),
    }
    // a second ballot from the same voter replaces the first
    assert_eq!(g.add_vote(2, vec![5]), Ok(()));
    match g.get_phase() {
        GamePhase::Voting { votes, .. } => {
            assert_eq!(votes.len(), 1);
            assert_eq!(votes[0].1, vec![VOTE_OPTION_NOBODY]);
        }
        _ => panic!("expected Voting"),
    }
}

#[test]
fn vote_errors() {
    let mut g = five_player_game();
    assert_eq!(g.add_vote(1, vec![0]), Err(GameError::InvalidPhase));
    assert_eq!(g.add_night_action(1, 2), Ok(()));
    g.end_phase().expect("night was complete");
    // P2 is dead and cannot vote; out-of-range indexes are rejected
    assert_eq!(g.add_vote(2, vec![0]), Err(GameError::InvalidTarget));
    assert_eq!(g.add_vote(99, vec![0]), Err(GameError::InvalidTarget));
    assert_eq!(g.add_vote(3, vec![7]), Err(GameError::InvalidTarget));
    assert_eq!(g.add_vote(3, vec![-1]), Err(GameError::InvalidTarget));
    // night operations are now out of phase
    assert_eq!(g.add_night_action(1, 3), Err(GameError::InvalidPhase));
}

/// Voting tie-break: a 2-2 tie between two real players forces a re-vote.
#[test]
fn tied_vote_forces_revote() {
    let players = vec![
        player(1, "P1", Role::Mafia),
        player(2, "P2", Role::Civilian),
        player(3, "P3", Role::Civilian),
        player(4, "P4", Role::Civilian),
    ];
    let options = vote_options_for(&[(1, "P1"), (2, "P2"), (3, "P3"), (4, "P4")]);
    let votes = vec![
        (1, vec![1i64]),
        (2, vec![1i64]),
        (3, vec![2i64]),
        (4, vec![2i64]),
    ];
    let mut g = GameV1::from_parts(
        players,
        GamePhase::Voting { options, votes },
        None,
        String::new(),
        Vec::new(),
    )
    .expect("state is well formed");
    let next = g.end_phase().expect("everyone voted");
    assert!(matches!(next, GamePhase::Voting { .. }));
    assert_eq!(
        g.get_transition_message().as_str(),
        "Multiple options were tied for first place. Moving to re-vote"
    );
    match g.get_phase() {
        GamePhase::Voting { votes, .. } => assert!(votes.is_empty()),
        _ => panic!("expected Voting"),
    }
}

/// Voting plurality: a unique top target goes on trial.
#[test]
fn plurality_goes_to_trial() {
    let mut g = five_player_game();
    assert_eq!(g.add_night_action(1, NOBODY_CHAT_ID), Ok(()));
    g.end_phase().expect("night was complete");
    // ballot: P1 P2 P3 P4 P5 Nobody -- everyone piles on P2 except P2
    assert_eq!(g.add_vote(1, vec![1]), Ok(()));
    assert_eq!(g.add_vote(2, vec![0]), Ok(()));
    assert_eq!(g.add_vote(3, vec![1]), Ok(()));
    assert_eq!(g.add_vote(4, vec![1]), Ok(()));
    assert!(g.end_phase().is_none(), "P5 has not voted yet");
    assert_eq!(g.add_vote(5, vec![1]), Ok(()));
    let next = g.end_phase().expect("everyone voted");
    match next {
        GamePhase::Trial { defendant_id, verdicts } => {
            assert_eq!(defendant_id, 2);
            assert!(verdicts.is_empty());
        }
        _ => panic!("expected Trial"),
    }
    assert_eq!(
        g.get_transition_message().as_str(),
        "Now begins the trial for P2:"
    );
    let jury = g.get_jury().expect("trial is active");
    let juror_ids: Vec<i64> = jury.iter().map(|p| p.chat_id).collect();
    assert_eq!(juror_ids, vec![1, 3, 4, 5]);
    assert_eq!(
        g.get_verdict_options().expect("trial is active"),
        vec![Verdict::Guilty, Verdict::Innocent, Verdict::Abstain]
    );
}

/// A lone "Nobody" plurality escalates to Night instead of a trial.
#[test]
fn nobody_plurality_goes_to_night() {
    let mut g = five_player_game();
    assert_eq!(g.add_night_action(1, NOBODY_CHAT_ID), Ok(()));
    g.end_phase().expect("night was complete");
    for voter in [1i64, 2, 3, 4, 5] {
        assert_eq!(g.add_vote(voter, vec![5]), Ok(()));
    }
    let next = g.end_phase().expect("everyone voted");
    assert!(matches!(next, GamePhase::Night { .. }));
    assert_eq!(
        g.get_transition_message().as_str(),
        "Most popular vote was not to lynch. Moving to night time..."
    );
}

/// Stalemate: identical per-voter chosen sets in two consecutive voting
/// rounds escalate to Night even though the tally alone would tie.
#[test]
fn stalemate_escalates_to_night() {
    let players = vec![
        player(1, "P1", Role::Mafia),
        player(2, "P2", Role::Civilian),
        player(3, "P3", Role::Civilian),
        player(4, "P4", Role::Civilian),
    ];
    let options = vote_options_for(&[(1, "P1"), (2, "P2"), (3, "P3"), (4, "P4")]);
    let prev_options = options.clone();
    // same chosen sets as the current round, in a different order
    let prev_votes = vec![
        (2, vec![2i64, 1]),
        (1, vec![1i64]),
        (3, vec![2i64]),
        (4, vec![2i64]),
    ];
    let votes = vec![
        (1, vec![1i64]),
        (2, vec![1i64, 2]),
        (3, vec![2i64]),
        (4, vec![2i64]),
    ];
    let mut g = GameV1::from_parts(
        players,
        GamePhase::Voting { options, votes },
        Some(GamePhase::Voting { options: prev_options, votes: prev_votes }),
        String::new(),
        Vec::new(),
    )
    .expect("state is well formed");
    let next = g.end_phase().expect("everyone voted");
    assert!(matches!(next, GamePhase::Night { .. }));
    assert_eq!(
        g.get_transition_message().as_str(),
        "No change in votes 2 rounds in a row. Moving to night time..."
    );
}

/// Trial resolution: a guilty-innocent tie lynches the defendant.
#[test]
fn trial_tie_lynches() {
    let players = vec![
        player(1, "P1", Role::Mafia),
        player(2, "P2", Role::Civilian),
        player(3, "P3", Role::Civilian),
        player(4, "P4", Role::Civilian),
        player(5, "P5", Role::Civilian),
    ];
    let verdicts = vec![
        (1, Verdict::Guilty),
        (3, Verdict::Guilty),
        (4, Verdict::Innocent),
        (5, Verdict::Innocent),
    ];
    let mut g = GameV1::from_parts(
        players,
        GamePhase::Trial { defendant_id: 2, verdicts },
        None,
        String::new(),
        Vec::new(),
    )
    .expect("state is well formed");
    let next = g.end_phase().expect("all jurors spoke");
    assert!(matches!(next, GamePhase::Night { .. }));
    assert_eq!(
        g.get_transition_message().as_str(),
        "By a vote of 2 guilty to 2 innocent, P2 was lynched"
    );
    assert!(!g.get_players().iter().find(|p| p.chat_id == 2).unwrap().is_alive);
}

#[test]
fn trial_innocent_majority_releases() {
    let players = vec![
        player(1, "P1", Role::Mafia),
        player(2, "P2", Role::Civilian),
        player(3, "P3", Role::Civilian),
        player(4, "P4", Role::Civilian),
    ];
    let verdicts = vec![
        (1, Verdict::Guilty),
        (3, Verdict::Innocent),
        (4, Verdict::Innocent),
    ];
    let mut g = GameV1::from_parts(
        players,
        GamePhase::Trial { defendant_id: 2, verdicts },
        None,
        String::new(),
        Vec::new(),
    )
    .expect("state is well formed");
    g.end_phase().expect("all jurors spoke");
    assert_eq!(
        g.get_transition_message().as_str(),
        "By a vote of 2 innocent to 1 guilty, P2 was released"
    );
    assert!(g.get_players().iter().find(|p| p.chat_id == 2).unwrap().is_alive);
}

#[test]
fn abstentions_count_for_neither_side() {
    let players = vec![
        player(1, "P1", Role::Mafia),
        player(2, "P2", Role::Civilian),
        player(3, "P3", Role::Civilian),
        player(4, "P4", Role::Civilian),
    ];
    let verdicts = vec![
        (1, Verdict::Abstain),
        (3, Verdict::Abstain),
        (4, Verdict::Abstain),
    ];
    let mut g = GameV1::from_parts(
        players,
        GamePhase::Trial { defendant_id: 2, verdicts },
        None,
        String::new(),
        Vec::new(),
    )
    .expect("state is well formed");
    g.end_phase().expect("all jurors spoke");
    // zero guilty >= zero innocent, so the tie rule lynches
    assert_eq!(
        g.get_transition_message().as_str(),
        "By a vote of 0 guilty to 0 innocent, P2 was lynched"
    );
}

#[test]
fn verdict_errors() {
    let mut g = five_player_game();
    assert_eq!(g.add_verdict(3, 0), Err(GameError::InvalidPhase));
    let players = vec![
        player(1, "P1", Role::Mafia),
        player(2, "P2", Role::Civilian),
        player(3, "P3", Role::Civilian),
    ];
    let mut t = GameV1::from_parts(
        players,
        GamePhase::Trial { defendant_id: 2, verdicts: Vec::new() },
        None,
        String::new(),
        Vec::new(),
    )
    .expect("state is well formed");
    // the defendant has no verdict, out-of-range menu indexes are rejected
    assert_eq!(t.add_verdict(2, 0), Err(GameError::InvalidTarget));
    assert_eq!(t.add_verdict(1, 3), Err(GameError::InvalidTarget));
    assert_eq!(t.add_verdict(99, 0), Err(GameError::InvalidTarget));
    assert_eq!(t.add_verdict(1, 1), Ok(()));
    // a second verdict replaces the first
    assert_eq!(t.add_verdict(1, 0), Ok(()));
    match t.get_phase() {
        GamePhase::Trial { verdicts, .. } => {
            assert_eq!(verdicts.len(), 1);
            assert_eq!(verdicts[0], (1, Verdict::Guilty));
        }
        _ => panic!("expected Trial"),
    }
}

/// Night to Voting: killing a civilian while two survive does not decide the
/// game; lynching the last Mafia member does.
#[test]
fn win_condition_edges() {
    // 1 Mafia vs 2 living non-Mafia: undecided
    let mut g = GameV1::from_parts(
        vec![
            player(1, "P1", Role::Mafia),
            player(2, "P2", Role::Civilian),
            player(3, "P3", Role::Civilian),
            player(4, "P4", Role::Civilian),
        ],
        GamePhase::Night { actions: vec![Action::Kill { source: 1, target: 2 }] },
        None,
        String::new(),
        Vec::new(),
    )
    .expect("state is well formed");
    assert!(g.get_winner().is_none());
    let next = g.end_phase().expect("night was complete");
    assert!(matches!(next, GamePhase::Voting { .. }));
    assert!(g.get_winner().is_none());

    // 1 Mafia vs 1 living non-Mafia: numeric parity, the Mafia win
    let mut g = GameV1::from_parts(
        vec![
            player(1, "P1", Role::Mafia),
            player(2, "P2", Role::Civilian),
            player(3, "P3", Role::Civilian),
        ],
        GamePhase::Night { actions: vec![Action::Kill { source: 1, target: 2 }] },
        None,
        String::new(),
        Vec::new(),
    )
    .expect("state is well formed");
    let next = g.end_phase().expect("night was complete");
    assert!(matches!(next, GamePhase::Ending));
    assert_eq!(g.get_transition_message().as_str(), "Mafia won the game!");
    assert_eq!(g.get_winner().unwrap().as_str(), "Mafia");

    // ending is terminal
    assert!(g.end_phase().is_none());
    assert_eq!(g.add_night_action(1, 3), Err(GameError::InvalidPhase));
}

/// End-to-end scenario: P1 kills P2; everyone votes P1; the jury convicts;
/// the Civilians win.
#[test]
fn full_game_civilians_win() {
    let mut g = five_player_game();
    assert_eq!(g.add_night_action(1, 2), Ok(()));
    let next = g.end_phase().expect("night was complete");
    assert!(matches!(next, GamePhase::Voting { .. }));
    assert_eq!(g.get_transition_message().as_str(), "P2 died last night");
    assert_eq!(
        g.get_vote_options().unwrap(),
        vote_options_for(&[(1, "P1"), (3, "P3"), (4, "P4"), (5, "P5")])
    );
    for voter in [1i64, 3, 4, 5] {
        assert_eq!(g.add_vote(voter, vec![0]), Ok(()));
    }
    let next = g.end_phase().expect("everyone voted");
    match next {
        GamePhase::Trial { defendant_id, .. } => assert_eq!(defendant_id, 1),
        _ => panic!("expected Trial"),
    }
    for juror in [3i64, 4, 5] {
        assert_eq!(g.add_verdict(juror, 0), Ok(()));
    }
    let next = g.end_phase().expect("all jurors spoke");
    assert!(matches!(next, GamePhase::Ending));
    assert_eq!(g.get_transition_message().as_str(), "Civilians won the game!");
    assert_eq!(g.get_winner().unwrap().as_str(), "Civilians");
}

/// Round trip: a game reassembled from its extracted parts replays the same
/// recorded actions to the same message and the same next phase.
#[test]
fn restored_game_replays_identically() {
    let mut original = five_player_game();
    assert_eq!(original.add_night_action(1, 2), Ok(()));

    // snapshot the state, then reassemble an independent copy from it
    let players: Vec<Player> = original.get_players().clone();
    let phase: GamePhase = original.get_phase().clone();
    let previous: Option<GamePhase> = original.get_previous_phase().clone();
    let message: String = original.get_transition_message();
    let mut restored = GameV1::from_parts(players, phase, previous, message, Vec::new())
        .expect("extracted parts are well formed");

    let a = original.end_phase().expect("night was complete");
    let b = restored.end_phase().expect("night was complete");
    assert_eq!(
        original.get_transition_message().as_str(),
        restored.get_transition_message().as_str()
    );
    assert!(matches!(a, GamePhase::Voting { .. }));
    assert!(matches!(b, GamePhase::Voting { .. }));
    assert_eq!(
        original.get_vote_options().unwrap(),
        restored.get_vote_options().unwrap()
    );

    for voter in [1i64, 3, 4, 5] {
        assert_eq!(original.add_vote(voter, vec![0]), Ok(()));
        assert_eq!(restored.add_vote(voter, vec![0]), Ok(()));
    }
    let a = original.end_phase().expect("everyone voted");
    let b = restored.end_phase().expect("everyone voted");
    assert!(matches!(a, GamePhase::Trial { defendant_id: 1, .. }));
    assert!(matches!(b, GamePhase::Trial { defendant_id: 1, .. }));
    assert_eq!(
        original.get_transition_message().as_str(),
        restored.get_transition_message().as_str()
    );
}

#[test]
fn from_parts_rejects_malformed_states() {
    // duplicate ids
    assert!(GameV1::from_parts(
        vec![player(1, "P1", Role::Mafia), player(1, "Q", Role::Civilian)],
        GamePhase::Night { actions: Vec::new() },
        None,
        String::new(),
        Vec::new(),
    )
    .is_none());
    // the ballot must match the living roster
    assert!(GameV1::from_parts(
        vec![player(1, "P1", Role::Mafia), player(2, "P2", Role::Civilian)],
        GamePhase::Voting { options: Vec::new(), votes: Vec::new() },
        None,
        String::new(),
        Vec::new(),
    )
    .is_none());
    // a dead defendant cannot stand trial
    let mut players = vec![player(1, "P1", Role::Mafia), player(2, "P2", Role::Civilian)];
    players[1].is_alive = false;
    assert!(GameV1::from_parts(
        players,
        GamePhase::Trial { defendant_id: 2, verdicts: Vec::new() },
        None,
        String::new(),
        Vec::new(),
    )
    .is_none());
}

#[test]
fn poll_message_ids_pass_through_unchanged() {
    let mut g = five_player_game();
    assert_eq!(
        g.add_poll_msg_ids(vec![(1, 7)]),
        Err(GameError::InvalidPhase)
    );
    assert!(g.get_poll_msg_ids().is_err());
    assert_eq!(g.add_night_action(1, NOBODY_CHAT_ID), Ok(()));
    g.end_phase().expect("night was complete");
    assert_eq!(g.add_poll_msg_ids(vec![(1, 7), (3, 8)]), Ok(()));
    assert_eq!(g.get_poll_msg_ids().unwrap(), vec![(1, 7), (3, 8)]);
}

#[test]
fn snapshot_is_independent() {
    let mut g = five_player_game();
    let snap = g.snapshot();
    assert_eq!(g.add_night_action(1, 2), Ok(()));
    g.end_phase().expect("night was complete");
    // the snapshot still sits at the start of Night
    assert!(matches!(snap.get_phase(), GamePhase::Night { actions } if actions.is_empty()));
    assert_eq!(
        snap.get_transition_message().as_str(),
        "Welcome to the Mafia Game"
    );
}

#[test]
fn verdict_labels() {
    assert_eq!(Verdict::Guilty.label().as_str(), "Guilty");
    assert_eq!(Verdict::Innocent.label().as_str(), "Innocent");
    assert_eq!(Verdict::Abstain.label().as_str(), "Abstain");
}
