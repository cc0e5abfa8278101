use chesspoker::matchmaker::{new_game_password, GameToConnectTo, Main, MatchAction, MatchPassword};

fn connected(action: MatchAction) -> (u16, String) {
    match action {
        MatchAction::connect(port, password) => (port, password),
        other => panic!("expected a port to join, got {:?}", other),
    }
}

#[test]
fn first_public_player_gets_a_new_game_and_the_second_joins_it() {
    let mut main = Main::new();
    let password = match main.handle_request(GameToConnectTo::joinpublicgame) {
        MatchAction::creategame(MatchPassword::Public, password) => password,
        other => panic!("expected a public game to start, got {:?}", other),
    };
    assert_eq!(password, "password");
    let (port, password) = connected(main.game_created(MatchPassword::Public, 3001));
    assert_eq!((port, password.as_str()), (3001, "password"));
    let (port, password) = connected(main.handle_request(GameToConnectTo::joinpublicgame));
    assert_eq!((port, password.as_str()), (3001, "password"));
    // The match is full now: the next public player starts another game.
    let action = main.handle_request(GameToConnectTo::joinpublicgame);
    assert!(matches!(action, MatchAction::creategame(MatchPassword::Public, _)));
}

#[test]
fn private_game_is_joined_once_by_its_password() {
    let mut main = Main::new();
    let password = match main.handle_request(GameToConnectTo::createprivategame) {
        MatchAction::creategame(MatchPassword::Private(p), told) => {
            assert_eq!(p, told);
            p
        }
        other => panic!("expected a private game to start, got {:?}", other),
    };
    assert_eq!(password.chars().count(), 4);
    assert!(password.chars().all(|c| c.is_ascii_alphanumeric()));
    let (port, told) = connected(main.game_created(MatchPassword::Private(password.clone()), 3002));
    assert_eq!((port, told.as_str()), (3002, password.as_str()));
    let action = main.handle_request(GameToConnectTo::joinprivategame("nope".to_string()));
    assert!(matches!(action, MatchAction::nothing));
    let (port, told) = connected(main.handle_request(GameToConnectTo::joinprivategame(password.clone())));
    assert_eq!((port, told.as_str()), (3002, password.as_str()));
    let action = main.handle_request(GameToConnectTo::joinprivategame(password));
    assert!(matches!(action, MatchAction::nothing));
}

#[test]
fn a_new_game_for_an_open_match_replaces_its_port() {
    let mut main = Main::new();
    connected(main.game_created(MatchPassword::Private("abcd".to_string()), 3003));
    connected(main.game_created(MatchPassword::Private("abcd".to_string()), 3004));
    let (port, _) = connected(main.handle_request(GameToConnectTo::joinprivategame("abcd".to_string())));
    assert_eq!(port, 3004);
    let action = main.handle_request(GameToConnectTo::joinprivategame("abcd".to_string()));
    assert!(matches!(action, MatchAction::nothing));
}

#[test]
fn game_passwords_are_four_letters_or_digits() {
    for _ in 0..20 {
        let p = new_game_password();
        assert_eq!(p.len(), 4);
        assert!(p.chars().all(|c| c.is_ascii_alphanumeric()));
    }
}
