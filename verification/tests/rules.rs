use chesspoker::chesspoker::maingame::boardmoves::BoardMove;
use chesspoker::chesspoker::maingame::datastructs::{Card, CardEffect, CardSuit, CardValue, PieceTypeData};
use chesspoker::chesspoker::maingame::rules::{
    get_all_board_square_ids, get_card, get_owner_of_card, get_owner_of_piece, get_pieces_and_squares_actable_by_card,
    get_position_of_card_in_hand, initialize_pieces, is_input_valid, is_piece_action_valid,
    is_play_card_on_board_action_valid, is_play_card_on_piece_action_valid, is_play_card_on_square_action_valid,
    is_player_forced_to_play_card_on_cardgame, set_piece_type, PlayerInput,
};
use chesspoker::chesspoker::maingame::CardGame;
use std::collections::{HashMap, HashSet};

fn card(effect: CardEffect) -> Card {
    Card::new(CardValue::five, CardSuit::spades, effect)
}

#[test]
fn all_board_square_ids_go_column_by_column() {
    let ids = get_all_board_square_ids();
    assert_eq!(ids.len(), 64);
    assert_eq!(ids[0], (0, 0));
    assert_eq!(ids[1], (0, 1));
    assert_eq!(ids[8], (1, 0));
    assert_eq!(ids[63], (7, 7));
}

#[test]
fn square_cards_act_on_every_square() {
    let (pieces, squares) = get_pieces_and_squares_actable_by_card(Some(card(CardEffect::dropsquare)));
    assert!(pieces.is_empty());
    assert_eq!(squares.len(), 64);
    assert_eq!(squares[9], (1, 1));
    let (_, squares) = get_pieces_and_squares_actable_by_card(Some(card(CardEffect::raisesquare)));
    assert_eq!(squares.len(), 64);
}

#[test]
fn game_cards_and_no_card_act_on_nothing() {
    let (pieces, squares) = get_pieces_and_squares_actable_by_card(Some(card(CardEffect::pokergame)));
    assert!(pieces.is_empty() && squares.is_empty());
    let (pieces, squares) = get_pieces_and_squares_actable_by_card(None);
    assert!(pieces.is_empty() && squares.is_empty());
}

#[test]
fn card_game_forces_its_players_to_play() {
    let mut g = CardGame::new_blackjack();
    let game = Some(g.clone());
    assert!(is_player_forced_to_play_card_on_cardgame(&game, 1));
    assert!(is_play_card_on_board_action_valid(&game, 1, CardEffect::dropsquare));
    assert!(!is_play_card_on_square_action_valid(&game, 1));
    assert!(!is_play_card_on_piece_action_valid(&game, 1));
    g.player_passes(1);
    let game = Some(g);
    assert!(!is_player_forced_to_play_card_on_cardgame(&game, 1));
    assert!(is_play_card_on_square_action_valid(&game, 1));
    assert!(!is_play_card_on_board_action_valid(&game, 1, CardEffect::blackjackgame));
}

#[test]
fn without_card_game_only_game_cards_go_on_the_board() {
    assert!(!is_player_forced_to_play_card_on_cardgame(&None, 1));
    assert!(is_play_card_on_board_action_valid(&None, 1, CardEffect::blackjackgame));
    assert!(is_play_card_on_board_action_valid(&None, 1, CardEffect::pokergame));
    assert!(!is_play_card_on_board_action_valid(&None, 1, CardEffect::raisesquare));
    assert!(is_play_card_on_square_action_valid(&None, 2));
    assert!(!is_play_card_on_piece_action_valid(&None, 2));
}

#[test]
fn piece_action_must_be_allowed_and_not_forced() {
    let allowed = vec![BoardMove::slide(0, 1), BoardMove::liftandmove((1, 2))];
    assert!(is_piece_action_valid(&None, 1, &BoardMove::slide(0, 1), &allowed));
    assert!(is_piece_action_valid(&None, 1, &BoardMove::liftandmove((1, 2)), &allowed));
    assert!(!is_piece_action_valid(&None, 1, &BoardMove::slide(0, 2), &allowed));
    let game = Some(CardGame::new_blackjack());
    assert!(!is_piece_action_valid(&game, 1, &BoardMove::slide(0, 1), &allowed));
}

#[test]
fn input_needs_the_card_in_hand() {
    let hand = vec![3u16, 7];
    let mut cards: HashMap<u16, Card> = HashMap::new();
    cards.insert(3, card(CardEffect::pokergame));
    cards.insert(7, card(CardEffect::dropsquare));
    let pieces: HashSet<u32> = HashSet::new();
    let allowed: Vec<BoardMove> = Vec::new();
    let play = PlayerInput::playcardonsquare(7, (2, 3));
    assert!(is_input_valid(1, &play, &hand, &pieces, &cards, &None, &allowed));
    let play = PlayerInput::playcardonsquare(8, (2, 3));
    assert!(!is_input_valid(1, &play, &hand, &pieces, &cards, &None, &allowed));
    let play = PlayerInput::playcardonboard(3);
    assert!(is_input_valid(1, &play, &hand, &pieces, &cards, &None, &allowed));
    let play = PlayerInput::playcardonboard(7);
    assert!(!is_input_valid(1, &play, &hand, &pieces, &cards, &None, &allowed));
    let play = PlayerInput::playcardonpiece(3, 10);
    assert!(!is_input_valid(1, &play, &hand, &pieces, &cards, &None, &allowed));
}

#[test]
fn input_needs_the_piece_to_be_owned() {
    let hand: Vec<u16> = Vec::new();
    let cards: HashMap<u16, Card> = HashMap::new();
    let mut pieces: HashSet<u32> = HashSet::new();
    pieces.insert(10);
    let allowed = vec![BoardMove::slide(0, 1)];
    let mv = PlayerInput::pieceaction(10, BoardMove::slide(0, 1));
    assert!(is_input_valid(1, &mv, &hand, &pieces, &cards, &None, &allowed));
    let mv = PlayerInput::pieceaction(11, BoardMove::slide(0, 1));
    assert!(!is_input_valid(1, &mv, &hand, &pieces, &cards, &None, &allowed));
    let game = Some(CardGame::new_poker(vec![card(CardEffect::dropsquare); 5]));
    let mv = PlayerInput::pieceaction(10, BoardMove::slide(0, 1));
    assert!(!is_input_valid(1, &mv, &hand, &pieces, &cards, &game, &allowed));
}

#[test]
fn piece_kinds_set_their_moves() {
    let mut data = PieceTypeData::new();
    set_piece_type(&mut data, 2);
    assert!(data.get_allowed_slide_actions(&0).is_empty());
    assert_eq!(data.get_allowed_lift_and_move(&0).len(), 8);
    set_piece_type(&mut data, 4);
    let slides = data.get_allowed_slide_actions(&0);
    assert_eq!(slides, vec![(0, 7, false, true), (2, 7, false, true), (4, 7, false, true), (6, 7, false, true)]);
    assert!(data.get_allowed_lift_and_move(&0).is_empty());
    set_piece_type(&mut data, 6);
    assert_eq!(data.get_allowed_slide_actions(&0).len(), 8);
    set_piece_type(&mut data, 9);
    assert_eq!(data.get_allowed_slide_actions(&0).len(), 8);
}

#[test]
fn initial_pieces_fill_both_back_rows() {
    let pieces = initialize_pieces();
    assert_eq!(pieces.len(), 32);
    assert_eq!(pieces[0], (1, (0, 1), 1));
    assert_eq!(pieces[1], (2, (0, 6), 1));
    assert_eq!(pieces[15], (2, (7, 6), 1));
    assert_eq!(pieces[16], (1, (0, 0), 4));
    assert_eq!(pieces[28], (1, (3, 0), 5));
    assert_eq!(pieces[30], (1, (4, 0), 6));
    assert_eq!(pieces[31], (2, (4, 7), 6));
    assert_eq!(pieces.iter().filter(|p| p.0 == 1).count(), 16);
}

#[test]
fn card_owner_and_position_are_found() {
    let mut hands: HashMap<u8, Vec<u16>> = HashMap::new();
    hands.insert(1, vec![4, 5, 6]);
    hands.insert(2, vec![9, 8]);
    assert_eq!(get_owner_of_card(&hands, 8), 2);
    assert_eq!(get_owner_of_card(&hands, 4), 1);
    assert_eq!(get_position_of_card_in_hand(&hands, 6), 2);
    assert_eq!(get_position_of_card_in_hand(&hands, 9), 0);
}

#[test]
fn piece_owner_is_found() {
    let mut owned: HashMap<u8, HashSet<u32>> = HashMap::new();
    owned.insert(1, [1u32, 2, 3].into_iter().collect());
    owned.insert(2, [4u32, 5].into_iter().collect());
    assert_eq!(get_owner_of_piece(&owned, 5), 2);
    assert_eq!(get_owner_of_piece(&owned, 1), 1);
}

#[test]
fn card_is_given_only_from_its_owners_hand() {
    let mut hands: HashMap<u8, Vec<u16>> = HashMap::new();
    hands.insert(1, vec![4]);
    hands.insert(2, vec![9]);
    let mut cards: HashMap<u16, Card> = HashMap::new();
    cards.insert(4, card(CardEffect::raisesquare));
    cards.insert(9, card(CardEffect::pokergame));
    assert_eq!(get_card(&hands, &cards, 4, 1), Some(card(CardEffect::raisesquare)));
    assert_eq!(get_card(&hands, &cards, 4, 2), None);
    hands.insert(2, vec![9, 12]);
    assert_eq!(get_card(&hands, &cards, 12, 2), None);
}
