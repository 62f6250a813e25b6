use that_mafia_game::game::game_v1::GameV1;
use that_mafia_game::game::{GameError, GamePhase, Role};
use that_mafia_game::game_manager::local_game_manager::LocalGameManager;
use that_mafia_game::lobby_manager::local_lobby_manager::LocalLobbyManager;
use that_mafia_game::lobby_manager::User;

fn user(id: i64, name: &str) -> User {
    User { chat_id: id, username: name.to_string() }
}

#[test]
fn new_game_assigns_one_mafia_to_a_full_roster() {
    let mut lm = LocalLobbyManager::new();
    let lobby = lm.create_lobby(user(1, "P1")).expect("fresh store");
    let code = lobby.lobby_id;
    for (id, name) in [(2i64, "P2"), (3, "P3"), (4, "P4"), (5, "P5")] {
        lm.join_lobby(code, user(id, name)).expect("room is open");
    }
    let lobby = lm.get_chats_lobby(1).expect("host is in the room");
    let g = GameV1::from_lobby(lobby).expect("five members are enough");

    let players = g.get_players();
    assert_eq!(players.len(), 5);
    let ids: Vec<i64> = players.iter().map(|p| p.chat_id).collect();
    assert_eq!(ids, vec![1, 2, 3, 4, 5]);
    let names: Vec<&str> = players.iter().map(|p| p.username.as_str()).collect();
    assert_eq!(names, vec!["P1", "P2", "P3", "P4", "P5"]);
    assert!(players.iter().all(|p| p.is_alive && p.is_connected));
    let mafia = players.iter().filter(|p| matches!(p.role, Role::Mafia)).count();
    let civilians = players.iter().filter(|p| matches!(p.role, Role::Civilian)).count();
    assert_eq!(mafia, 1);
    assert_eq!(civilians, 4);
    assert!(matches!(g.get_phase(), GamePhase::Night { actions } if actions.is_empty()));
    assert_eq!(g.get_transition_message().as_str(), "Welcome to the Mafia Game");
    assert!(g.get_previous_phase().is_none());
}

#[test]
fn new_game_needs_three_members() {
    let mut lm = LocalLobbyManager::new();
    let lobby = lm.create_lobby(user(1, "P1")).expect("fresh store");
    let code = lobby.lobby_id;
    lm.join_lobby(code, user(2, "P2")).expect("room is open");
    let lobby = lm.get_chats_lobby(1).expect("host is in the room");
    assert_eq!(GameV1::from_lobby(lobby).err(), Some(GameError::InsufficientPlayers));
}

#[test]
fn lobby_codes_are_in_range_and_membership_is_tracked() {
    let mut lm = LocalLobbyManager::new();
    let lobby = lm.create_lobby(user(1, "P1")).expect("fresh store");
    assert!(1000 <= lobby.lobby_id.0 && lobby.lobby_id.0 < 10000);
    assert_eq!(lobby.host_id, 1);
    assert_eq!(lobby.users.len(), 1);
    assert!(lm.get_chats_lobby(1).is_some());
    assert!(lm.get_chats_lobby(2).is_none());

    assert_eq!(
        lm.create_lobby(user(1, "P1")).err(),
        Some("User is already in a lobby")
    );

    let code = lobby.lobby_id;
    let joined = lm.join_lobby(code, user(2, "P2")).expect("room is open");
    assert_eq!(joined.users.len(), 2);
    assert_eq!(
        lm.join_lobby(code, user(2, "P2")).err(),
        Some("User is already in a lobby")
    );
    assert_eq!(
        lm.join_lobby(that_mafia_game::lobby_manager::LobbyId(code.0 + 1), user(9, "P9")).err(),
        Some("Lobby does not exist")
    );
}

#[test]
fn quitting_reassigns_the_host_and_last_member_closes_the_room() {
    let mut lm = LocalLobbyManager::new();
    let lobby = lm.create_lobby(user(1, "P1")).expect("fresh store");
    let code = lobby.lobby_id;
    lm.join_lobby(code, user(2, "P2")).expect("room is open");
    lm.join_lobby(code, user(3, "P3")).expect("room is open");

    // the host leaves: the first remaining member takes over
    assert_eq!(lm.quit_lobby(1), Ok(code));
    let lobby = lm.get_chats_lobby(2).expect("P2 still in the room");
    assert_eq!(lobby.host_id, 2);
    assert_eq!(lobby.users.len(), 2);
    assert!(lm.get_chats_lobby(1).is_none());

    assert_eq!(lm.quit_lobby(1).err(), Some("Chat ID is not in any lobby"));
    assert_eq!(lm.quit_lobby(3), Ok(code));
    // the last member leaving closes the room
    assert_eq!(lm.quit_lobby(2), Ok(code));
    assert!(lm.get_chats_lobby(2).is_none());
}

#[test]
fn closing_a_lobby_unbinds_every_member() {
    let mut lm = LocalLobbyManager::new();
    let lobby = lm.create_lobby(user(1, "P1")).expect("fresh store");
    let code = lobby.lobby_id;
    lm.join_lobby(code, user(2, "P2")).expect("room is open");
    assert_eq!(lm.close_lobby(code), Ok(()));
    assert!(lm.get_chats_lobby(1).is_none());
    assert!(lm.get_chats_lobby(2).is_none());
    assert_eq!(lm.close_lobby(code).err(), Some("Lobby does not exist"));
}

fn three_player_game() -> GameV1 {
    let players = vec![
        that_mafia_game::game::Player {
            chat_id: 1,
            username: "P1".to_string(),
            role: Role::Mafia,
            is_alive: true,
            is_connected: true,
        },
        that_mafia_game::game::Player {
            chat_id: 2,
            username: "P2".to_string(),
            role: Role::Civilian,
            is_alive: true,
            is_connected: true,
        },
        that_mafia_game::game::Player {
            chat_id: 3,
            username: "P3".to_string(),
            role: Role::Civilian,
            is_alive: true,
            is_connected: true,
        },
    ];
    GameV1::from_parts(
        players,
        GamePhase::Night { actions: Vec::new() },
        None,
        "Welcome to the Mafia Game".to_string(),
        Vec::new(),
    )
    .expect("a fresh three player roster is well formed")
}

#[test]
fn games_are_filed_and_found_by_player() {
    let mut gm = LocalGameManager::new();
    assert!(gm.get_player_game(1).is_none());
    let id = gm.add_game(three_player_game()).expect("fresh store");
    assert!(1000 <= id.0 && id.0 < 10000);
    for chat in [1i64, 2, 3] {
        let g = gm.get_player_game(chat).expect("every member is mapped");
        assert_eq!(g.get_players().len(), 3);
    }
    assert!(gm.get_player_game(4).is_none());
}

#[test]
fn removed_games_can_be_mutated_and_refiled() {
    let mut gm = LocalGameManager::new();
    let id = gm.add_game(three_player_game()).expect("fresh store");
    let mut g = gm.remove_game(2).expect("P2 is in a game");
    assert_eq!(
        g.add_night_action(1, that_mafia_game::game::NOBODY_CHAT_ID),
        Ok(())
    );
    g.end_phase().expect("night was complete");
    gm.put_game(id, g);
    let g = gm.get_player_game(2).expect("the game is filed again");
    assert_eq!(g.get_transition_message().as_str(), "Nobody died last night");
}

#[test]
fn quitting_a_game_unbinds_only_the_quitter() {
    let mut gm = LocalGameManager::new();
    let id = gm.add_game(three_player_game()).expect("fresh store");
    assert_eq!(gm.quit_game(2), Ok(id));
    assert!(gm.get_player_game(2).is_none());
    assert!(gm.get_player_game(1).is_some());
    assert_eq!(gm.quit_game(2).err(), Some("Player not in a game"));
}
