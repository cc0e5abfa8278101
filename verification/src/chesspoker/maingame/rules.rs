use vstd::prelude::*;
use std::collections::HashMap;
use std::collections::HashSet;
use crate::chesspoker::maingame::{is_card_player, CardGame};
use crate::chesspoker::maingame::boardmoves::BoardMove;
use crate::chesspoker::maingame::datastructs::{
    bishop_slides, king_slides, knight_lifts, moved_pawn_slides, queen_slides, rook_slides, unmoved_pawn_slides,
    Card, CardEffect, PieceTypeData,
};

verus! {

broadcast use vstd::std_specs::hash::group_hash_axioms;

/// What a player asks to do, other than a flick (which is given by forces).
#[allow(non_camel_case_types)]
#[derive(Clone, Copy, Debug)]
pub enum PlayerInput {
    /// Play a card on the board.
    playcardonboard(u16),
    /// Play a card on a piece.
    playcardonpiece(u16, u32),
    /// Play a card on a square.
    playcardonsquare(u16, (u8, u8)),
    /// Move a piece.
    pieceaction(u32, BoardMove),
}

/// The card game, if any, can be asked about this player.
pub open spec fn card_game_knows(cardgame: Option<CardGame>, playerid: u8) -> bool {
    cardgame matches Some(g) ==> g.wf() && g@.passed.contains_key(playerid) && is_card_player(playerid)
}

/// Whether a card game is going on that lets this player play a card, which
/// they must then do before anything else.
pub open spec fn forced_to_play(cardgame: Option<CardGame>, playerid: u8) -> bool {
    cardgame matches Some(g) && !g@.ended && !g@.passed[playerid] && g@.hands[playerid].len() < if g@.blackjack {
        4int
    } else {
        2int
    }
}

/// Every square id of the board, column by column.
pub fn get_all_board_square_ids() -> (r: Vec<(u32, u32)>)
    ensures
        r@.len() == 64,
        forall|i: int| 0 <= i < 64 ==> #[trigger] r@[i] == ((i / 8) as u32, (i % 8) as u32),
{
    let mut toreturn: Vec<(u32, u32)> = Vec::new();
    let mut x: u32 = 0;
    while x < 8
        invariant
            x <= 8,
            toreturn@.len() == x * 8,
            forall|i: int| 0 <= i < x * 8 ==> #[trigger] toreturn@[i] == ((i / 8) as u32, (i % 8) as u32),
        decreases 8 - x,
    {
        let mut y: u32 = 0;
        while y < 8
            invariant
                x < 8,
                y <= 8,
                toreturn@.len() == x * 8 + y,
                forall|i: int| 0 <= i < x * 8 + y ==> #[trigger] toreturn@[i] == ((i / 8) as u32, (i % 8) as u32),
            decreases 8 - y,
        {
            assert(((x * 8 + y) / 8) as u32 == x && ((x * 8 + y) % 8) as u32 == y) by (nonlinear_arith)
                requires
                    y < 8,
            ;
            toreturn.push((x, y));
            y = y + 1;
        }
        x = x + 1;
    }
    toreturn
}

/// The pieces and squares a card can be played on: every square for a card
/// that drops or raises a square, nothing for any other card or no card.
pub fn get_pieces_and_squares_actable_by_card(card: Option<Card>) -> (r: (Vec<u32>, Vec<(u8, u8)>))
    ensures
        r.0@.len() == 0,
        (card matches Some(c) && (c.spec_effect() == CardEffect::dropsquare || c.spec_effect() == CardEffect::raisesquare)) ==> {
            &&& r.1@.len() == 64
            &&& forall|i: int| 0 <= i < 64 ==> #[trigger] r.1@[i] == ((i / 8) as u8, (i % 8) as u8)
        },
        !(card matches Some(c) && (c.spec_effect() == CardEffect::dropsquare || c.spec_effect() == CardEffect::raisesquare)) ==> r.1@.len() == 0,
{
    let mut boardsquaresallowed: Vec<(u8, u8)> = Vec::new();
    let piecesallowed: Vec<u32> = Vec::new();
    if let Some(c) = card {
        if c.get_effect() == CardEffect::dropsquare || c.get_effect() == CardEffect::raisesquare {
            let mut x: u8 = 0;
            while x < 8
                invariant
                    x <= 8,
                    boardsquaresallowed@.len() == x * 8,
                    forall|i: int| 0 <= i < x * 8 ==> #[trigger] boardsquaresallowed@[i] == ((i / 8) as u8, (i % 8) as u8),
                decreases 8 - x,
            {
                let mut y: u8 = 0;
                while y < 8
                    invariant
                        x < 8,
                        y <= 8,
                        boardsquaresallowed@.len() == x * 8 + y,
                        forall|i: int| 0 <= i < x * 8 + y ==> #[trigger] boardsquaresallowed@[i] == ((i / 8) as u8, (i % 8) as u8),
                    decreases 8 - y,
                {
                    assert(((x * 8 + y) / 8) as u8 == x && ((x * 8 + y) % 8) as u8 == y) by (nonlinear_arith)
                        requires
                            y < 8,
                            x < 8,
                    ;
                    boardsquaresallowed.push((x, y));
                    y = y + 1;
                }
                x = x + 1;
            }
        }
    }
    (piecesallowed, boardsquaresallowed)
}

/// Whether a card game is going on that lets this player play a card (see
/// `forced_to_play`).
pub fn is_player_forced_to_play_card_on_cardgame(cardgame: &Option<CardGame>, playerid: u8) -> (b: bool)
    requires
        card_game_knows(*cardgame, playerid),
    ensures
        b == forced_to_play(*cardgame, playerid),
{
    if let Some(g) = cardgame {
        if g.is_player_allowed_to_play_card(playerid) {
            return true;
        }
    }
    false
}

/// Whether a card can be played on the board: during a card game, if the game
/// lets the player play; otherwise if it starts a blackjack or poker game.
pub fn is_play_card_on_board_action_valid(cardgame: &Option<CardGame>, playerid: u8, cardeffect: CardEffect) -> (b: bool)
    requires
        card_game_knows(*cardgame, playerid),
    ensures
        b == if cardgame is Some {
            forced_to_play(*cardgame, playerid)
        } else {
            cardeffect == CardEffect::blackjackgame || cardeffect == CardEffect::pokergame
        },
{
    if let Some(g) = cardgame {
        return g.is_player_allowed_to_play_card(playerid);
    }
    if cardeffect == CardEffect::blackjackgame {
        return true;
    }
    if cardeffect == CardEffect::pokergame {
        return true;
    }
    false
}

/// Whether a card can be played on a piece: no card can be yet.
pub fn is_play_card_on_piece_action_valid(cardgame: &Option<CardGame>, playerid: u8) -> (b: bool)
    requires
        card_game_knows(*cardgame, playerid),
    ensures
        !b,
{
    let _forced = is_player_forced_to_play_card_on_cardgame(cardgame, playerid);
    false
}

/// Whether a card can be played on a square: unless a card game waits for
/// the player's card.
pub fn is_play_card_on_square_action_valid(cardgame: &Option<CardGame>, playerid: u8) -> (b: bool)
    requires
        card_game_knows(*cardgame, playerid),
    ensures
        b == !forced_to_play(*cardgame, playerid),
{
    !is_player_forced_to_play_card_on_cardgame(cardgame, playerid)
}

/// Whether a list of moves holds this one.
fn moves_contain(v: &Vec<BoardMove>, m: &BoardMove) -> (b: bool)
    ensures
        b == v@.contains(*m),
{
    let mut i: usize = 0;
    while i < v.len()
        invariant
            i <= v.len(),
            forall|j: int| 0 <= j < i ==> v@[j] != *m,
        decreases v.len() - i,
    {
        let same = match (&v[i], m) {
            (BoardMove::liftandmove(p), BoardMove::liftandmove(q)) => p.0 == q.0 && p.1 == q.1,
            (BoardMove::slide(d, s), BoardMove::slide(e, t)) => *d == *e && *s == *t,
            _ => false,
        };
        if same {
            assert(v@[i as int] == *m);
            return true;
        }
        i = i + 1;
    }
    false
}

/// Whether a piece may make this move: unless a card game waits for the
/// player's card, if the move is one the piece may make on the board now
/// (`allowed`, as `get_slide_and_lift_actions_allowed_for_piece` gives them).
pub fn is_piece_action_valid(cardgame: &Option<CardGame>, playerid: u8, pieceaction: &BoardMove, allowed: &Vec<BoardMove>) -> (b: bool)
    requires
        card_game_knows(*cardgame, playerid),
    ensures
        b == (!forced_to_play(*cardgame, playerid) && allowed@.contains(*pieceaction)),
{
    if is_player_forced_to_play_card_on_cardgame(cardgame, playerid) {
        return false;
    }
    moves_contain(allowed, pieceaction)
}

/// Whether what a player asks is allowed: the card must be in their hand and
/// the piece theirs, and then the play or move must be allowed. `cards` holds
/// every card by its id, and `allowed` the moves the input's piece may make
/// on the board now.
pub fn is_input_valid(
    playerid: u8,
    input: &PlayerInput,
    hand: &Vec<u16>,
    pieces: &HashSet<u32>,
    cards: &HashMap<u16, Card>,
    cardgame: &Option<CardGame>,
    allowed: &Vec<BoardMove>,
) -> (b: bool)
    requires
        card_game_knows(*cardgame, playerid),
        forall|c: u16| #[trigger] hand@.contains(c) ==> cards@.contains_key(c),
    ensures
        b == match *input {
            PlayerInput::playcardonboard(c) => hand@.contains(c) && if cardgame is Some {
                forced_to_play(*cardgame, playerid)
            } else {
                cards@[c].spec_effect() == CardEffect::blackjackgame || cards@[c].spec_effect() == CardEffect::pokergame
            },
            PlayerInput::playcardonpiece(c, _) => false,
            PlayerInput::playcardonsquare(c, _) => hand@.contains(c) && !forced_to_play(*cardgame, playerid),
            PlayerInput::pieceaction(p, m) => pieces@.contains(p) && !forced_to_play(*cardgame, playerid)
                && allowed@.contains(m),
        },
{
    let maybecardid: Option<u16> = match input {
        PlayerInput::playcardonboard(cardid) => Some(*cardid),
        PlayerInput::playcardonpiece(cardid, _) => Some(*cardid),
        PlayerInput::playcardonsquare(cardid, _) => Some(*cardid),
        PlayerInput::pieceaction(_, _) => None,
    };
    if let Some(cardid) = maybecardid {
        let mut owns = false;
        let mut i: usize = 0;
        while i < hand.len()
            invariant
                i <= hand.len(),
                owns == exists|j: int| 0 <= j < i && hand@[j] == cardid,
            decreases hand.len() - i,
        {
            if hand[i] == cardid {
                owns = true;
            }
            i = i + 1;
        }
        if !owns {
            return false;
        }
    }
    if let PlayerInput::pieceaction(pieceid, _) = input {
        if !pieces.contains(pieceid) {
            return false;
        }
    }
    match input {
        PlayerInput::playcardonboard(cardid) => {
            proof {
                assert(hand@.contains(*cardid));
            }
            let cardeffect = cards.get(cardid).unwrap().get_effect();
            is_play_card_on_board_action_valid(cardgame, playerid, cardeffect)
        },
        PlayerInput::playcardonpiece(_, _) => is_play_card_on_piece_action_valid(cardgame, playerid),
        PlayerInput::playcardonsquare(_, _) => is_play_card_on_square_action_valid(cardgame, playerid),
        PlayerInput::pieceaction(_, pieceaction) => is_piece_action_valid(cardgame, playerid, pieceaction, allowed),
    }
}

/// What giving a piece the kind with this number does to its data: the
/// moves of a pawn (1, an unmoved one unless it has acted), knight (2),
/// bishop (3), rook (4), queen (5) or king (6); any other number leaves the
/// data as it is. Whether it is a king, has acted or may castle stays.
pub open spec fn piece_type_set(before: PieceTypeData, after: PieceTypeData, typeid: u32) -> bool {
    &&& after.spec_isking() == before.spec_isking()
    &&& after.spec_takenaction() == before.spec_takenaction()
    &&& after.spec_cancastle() == before.spec_cancastle()
    &&& typeid == 1 ==> after.slides() == if before.spec_takenaction() {
        moved_pawn_slides()
    } else {
        unmoved_pawn_slides()
    } && after.lifts().len() == 0
    &&& typeid == 2 ==> after.slides().len() == 0 && after.lifts() == knight_lifts()
    &&& typeid == 3 ==> after.slides() == bishop_slides() && after.lifts().len() == 0
    &&& typeid == 4 ==> after.slides() == rook_slides() && after.lifts().len() == 0
    &&& typeid == 5 ==> after.slides() == queen_slides() && after.lifts().len() == 0
    &&& typeid == 6 ==> after.slides() == king_slides() && after.lifts().len() == 0
    &&& (typeid < 1 || typeid > 6) ==> after.slides() == before.slides() && after.lifts() == before.lifts()
}

/// Gives a piece the moves of the kind with this number (see
/// `piece_type_set`).
pub fn set_piece_type(piecetypedata: &mut PieceTypeData, typeid: u32)
    ensures
        piece_type_set(*old(piecetypedata), *final(piecetypedata), typeid),
{
    if typeid == 1 {
        piecetypedata.set_pawn();
    } else if typeid == 2 {
        piecetypedata.set_knight();
    } else if typeid == 3 {
        piecetypedata.set_bishop();
    } else if typeid == 4 {
        piecetypedata.set_rook();
    } else if typeid == 5 {
        piecetypedata.set_queen();
    } else if typeid == 6 {
        piecetypedata.set_king();
    }
}

/// The pieces of a new game, in the order they are made: `(owner, square,
/// kind number)`. Each player has a row of pawns (player 1 on row 1, player 2
/// on row 6) and their other pieces behind it (rows 0 and 7): rooks, knights,
/// bishops, the queen on column 3 and the king on column 4.
pub open spec fn initial_layout() -> Seq<(u8, (u32, u32), u32)> {
    Seq::new(16, |i: int| if i % 2 == 0 { (1u8, ((i / 2) as u32, 1u32), 1u32) } else { (2u8, ((i / 2) as u32, 6u32), 1u32) }) + seq![
        (1u8, (0u32, 0u32), 4u32), (1u8, (7u32, 0u32), 4u32), (2u8, (0u32, 7u32), 4u32), (2u8, (7u32, 7u32), 4u32),
        (1u8, (1u32, 0u32), 2u32), (1u8, (6u32, 0u32), 2u32), (2u8, (1u32, 7u32), 2u32), (2u8, (6u32, 7u32), 2u32),
        (1u8, (2u32, 0u32), 3u32), (1u8, (5u32, 0u32), 3u32), (2u8, (2u32, 7u32), 3u32), (2u8, (5u32, 7u32), 3u32),
        (1u8, (3u32, 0u32), 5u32), (2u8, (3u32, 7u32), 5u32),
        (1u8, (4u32, 0u32), 6u32), (2u8, (4u32, 7u32), 6u32),
    ]
}

/// The kind number (as `set_piece_type` takes it: 1 pawn, 2 knight, 3
/// bishop, 4 rook, 5 queen, 6 king) of the piece that starts a chess game on
/// column `x` of a back row: rook, knight, bishop, queen, king, bishop,
/// knight, rook.
pub open spec fn chess_back_row_kind(x: int) -> u32 {
    if x == 0 || x == 7 {
        4
    } else if x == 1 || x == 6 {
        2
    } else if x == 2 || x == 5 {
        3
    } else if x == 3 {
        5
    } else {
        6
    }
}

/// The row a player's back row stands on: 0 for player 1, 7 for player 2.
pub open spec fn home_row(p: u8) -> u32 {
    if p == 1 { 0 } else { 7 }
}

/// The row a player's pawns stand on: 1 for player 1, 6 for player 2.
pub open spec fn pawn_row(p: u8) -> u32 {
    if p == 1 { 1 } else { 6 }
}

/// A new game is set up as chess: 32 pieces of players 1 and 2 on the board,
/// each on its own player's pawn row or back row; a pawn on every square of
/// the pawn rows; on the back rows, for both players, rooks on columns 0 and
/// 7, knights on 1 and 6, bishops on 2 and 5, the queen on 3 and the king on
/// 4.
pub proof fn lemma_initial_layout_is_chess()
    ensures
        initial_layout().len() == 32,
        forall|i: int| 0 <= i < 32 ==> {
            let e = #[trigger] initial_layout()[i];
            &&& e.0 == 1 || e.0 == 2
            &&& e.1.0 < 8
            &&& e.1.1 == home_row(e.0) || e.1.1 == pawn_row(e.0)
            &&& e.1.1 == home_row(e.0) ==> e.2 == chess_back_row_kind(e.1.0 as int)
            &&& e.1.1 == pawn_row(e.0) ==> e.2 == 1
        },
        forall|p: u8, x: u32| (p == 1 || p == 2) && x < 8 ==> #[trigger] initial_layout().contains(
            (p, (x, home_row(p)), chess_back_row_kind(x as int)),
        ),
        forall|p: u8, x: u32| (p == 1 || p == 2) && x < 8 ==> #[trigger] initial_layout().contains((p, (x, pawn_row(p)), 1u32)),
{
    let l = initial_layout();
    assert forall|i: int| 0 <= i < 32 implies {
        let e = #[trigger] l[i];
        &&& e.0 == 1 || e.0 == 2
        &&& e.1.0 < 8
        &&& e.1.1 == home_row(e.0) || e.1.1 == pawn_row(e.0)
        &&& e.1.1 == home_row(e.0) ==> e.2 == chess_back_row_kind(e.1.0 as int)
        &&& e.1.1 == pawn_row(e.0) ==> e.2 == 1
    } by {
        if i < 16 {
        } else {
            if i == 16 { assert(l[i] == (1u8, (0u32, 0u32), 4u32)); }
            else if i == 17 { assert(l[i] == (1u8, (7u32, 0u32), 4u32)); }
            else if i == 18 { assert(l[i] == (2u8, (0u32, 7u32), 4u32)); }
            else if i == 19 { assert(l[i] == (2u8, (7u32, 7u32), 4u32)); }
            else if i == 20 { assert(l[i] == (1u8, (1u32, 0u32), 2u32)); }
            else if i == 21 { assert(l[i] == (1u8, (6u32, 0u32), 2u32)); }
            else if i == 22 { assert(l[i] == (2u8, (1u32, 7u32), 2u32)); }
            else if i == 23 { assert(l[i] == (2u8, (6u32, 7u32), 2u32)); }
            else if i == 24 { assert(l[i] == (1u8, (2u32, 0u32), 3u32)); }
            else if i == 25 { assert(l[i] == (1u8, (5u32, 0u32), 3u32)); }
            else if i == 26 { assert(l[i] == (2u8, (2u32, 7u32), 3u32)); }
            else if i == 27 { assert(l[i] == (2u8, (5u32, 7u32), 3u32)); }
            else if i == 28 { assert(l[i] == (1u8, (3u32, 0u32), 5u32)); }
            else if i == 29 { assert(l[i] == (2u8, (3u32, 7u32), 5u32)); }
            else if i == 30 { assert(l[i] == (1u8, (4u32, 0u32), 6u32)); }
            else if i == 31 { assert(l[i] == (2u8, (4u32, 7u32), 6u32)); }
        }
    }
    assert forall|p: u8, x: u32| (p == 1 || p == 2) && x < 8 implies #[trigger] l.contains(
        (p, (x, home_row(p)), chess_back_row_kind(x as int)),
    ) by {
            if p == 1 && x == 0 { assert(l[16] == (1u8, (0u32, 0u32), 4u32)); }
            else if p == 1 && x == 7 { assert(l[17] == (1u8, (7u32, 0u32), 4u32)); }
            else if p == 2 && x == 0 { assert(l[18] == (2u8, (0u32, 7u32), 4u32)); }
            else if p == 2 && x == 7 { assert(l[19] == (2u8, (7u32, 7u32), 4u32)); }
            else if p == 1 && x == 1 { assert(l[20] == (1u8, (1u32, 0u32), 2u32)); }
            else if p == 1 && x == 6 { assert(l[21] == (1u8, (6u32, 0u32), 2u32)); }
            else if p == 2 && x == 1 { assert(l[22] == (2u8, (1u32, 7u32), 2u32)); }
            else if p == 2 && x == 6 { assert(l[23] == (2u8, (6u32, 7u32), 2u32)); }
            else if p == 1 && x == 2 { assert(l[24] == (1u8, (2u32, 0u32), 3u32)); }
            else if p == 1 && x == 5 { assert(l[25] == (1u8, (5u32, 0u32), 3u32)); }
            else if p == 2 && x == 2 { assert(l[26] == (2u8, (2u32, 7u32), 3u32)); }
            else if p == 2 && x == 5 { assert(l[27] == (2u8, (5u32, 7u32), 3u32)); }
            else if p == 1 && x == 3 { assert(l[28] == (1u8, (3u32, 0u32), 5u32)); }
            else if p == 2 && x == 3 { assert(l[29] == (2u8, (3u32, 7u32), 5u32)); }
            else if p == 1 && x == 4 { assert(l[30] == (1u8, (4u32, 0u32), 6u32)); }
            else if p == 2 && x == 4 { assert(l[31] == (2u8, (4u32, 7u32), 6u32)); }
    }
    assert forall|p: u8, x: u32| (p == 1 || p == 2) && x < 8 implies #[trigger] l.contains((p, (x, pawn_row(p)), 1u32)) by {
        let i = 2 * x + (p - 1);
        assert(l[i] == (p, (x, pawn_row(p)), 1u32));
    }
}

/// The pieces of a new game, in the order they are made (see
/// `initial_layout`).
pub fn initialize_pieces() -> (r: Vec<(u8, (u32, u32), u32)>)
    ensures
        r@ == initial_layout(),
{
    let mut toreturn: Vec<(u8, (u32, u32), u32)> = Vec::new();
    let mut x: u32 = 0;
    while x < 8
        invariant
            x <= 8,
            toreturn@ == Seq::new((2 * x) as nat, |i: int| if i % 2 == 0 { (1u8, ((i / 2) as u32, 1u32), 1u32) } else { (2u8, ((i / 2) as u32, 6u32), 1u32) }),
        decreases 8 - x,
    {
        let y: u32 = 1;
        toreturn.push((1, (x, y), 1));
        toreturn.push((2, (x, y + 5), 1));
        x = x + 1;
        assert(toreturn@ =~= Seq::new((2 * x) as nat, |i: int| if i % 2 == 0 { (1u8, ((i / 2) as u32, 1u32), 1u32) } else { (2u8, ((i / 2) as u32, 6u32), 1u32) }));
    }
    toreturn.push((1, (0, 0), 4));
    toreturn.push((1, (7, 0), 4));
    toreturn.push((2, (0, 7), 4));
    toreturn.push((2, (7, 7), 4));
    toreturn.push((1, (1, 0), 2));
    toreturn.push((1, (6, 0), 2));
    toreturn.push((2, (1, 7), 2));
    toreturn.push((2, (6, 7), 2));
    toreturn.push((1, (2, 0), 3));
    toreturn.push((1, (5, 0), 3));
    toreturn.push((2, (2, 7), 3));
    toreturn.push((2, (5, 7), 3));
    toreturn.push((1, (3, 0), 5));
    toreturn.push((2, (3, 7), 5));
    toreturn.push((1, (4, 0), 6));
    toreturn.push((2, (4, 7), 6));
    assert(toreturn@ =~= initial_layout());
    toreturn
}


/// The player whose hand holds the card; if several do, which one is given
/// is left to the order of the map.
pub fn get_owner_of_card(playertocards: &HashMap<u8, Vec<u16>>, cardid: u16) -> (p: u8)
    requires
        exists|q: u8| #[trigger] playertocards@.contains_key(q) && playertocards@[q]@.contains(cardid),
    ensures
        playertocards@.contains_key(p) && playertocards@[p]@.contains(cardid),
{
    let ghost entries = vstd::std_specs::iter::IteratorSpec::remaining(
        &vstd::std_specs::hash::spec_hash_map_iter(playertocards),
    );
    for (playerid, cardidmap) in it: playertocards.iter()
        invariant
            it.seq() == entries,
            forall|i: int| 0 <= i < it.index() ==> !(#[trigger] entries[i]).1@.contains(cardid),
    {
        proof {
            assert(entries[it.index()] == (playerid, cardidmap));
            assert(playertocards@.contains_key(*playerid));
            assert(playertocards@[*playerid] == *cardidmap);
        }
        let mut i: usize = 0;
        while i < cardidmap.len()
            invariant
                i <= cardidmap.len(),
                playertocards@.contains_key(*playerid),
                playertocards@[*playerid] == *cardidmap,
                forall|j: int| 0 <= j < i ==> cardidmap@[j] != cardid,
            decreases cardidmap.len() - i,
        {
            if cardidmap[i] == cardid {
                assert(playertocards@[*playerid]@[i as int] == cardid);
                return *playerid;
            }
            i = i + 1;
        }
    }
    proof {
        let q = choose|q: u8| #[trigger] playertocards@.contains_key(q) && playertocards@[q]@.contains(cardid);
        assert(entries.contains((&q, &playertocards@[q])));
        let i = choose|i: int| 0 <= i < entries.len() && entries[i] == (&q, &playertocards@[q]);
        assert(!entries[i].1@.contains(cardid));
    }
    0
}

/// The position of the card in the hand that holds it, counted from 0; if
/// several hands do, which one is used is left to the order of the map.
pub fn get_position_of_card_in_hand(playertocards: &HashMap<u8, Vec<u16>>, cardid: u16) -> (pos: u32)
    requires
        exists|q: u8| #[trigger] playertocards@.contains_key(q) && playertocards@[q]@.contains(cardid),
        forall|q: u8| #[trigger] playertocards@.contains_key(q) ==> playertocards@[q]@.len() <= u32::MAX,
    ensures
        exists|q: u8|
            #[trigger] playertocards@.contains_key(q) && 0 <= pos < playertocards@[q]@.len() && playertocards@[q]@[pos as int]
                == cardid && forall|j: int| 0 <= j < pos ==> playertocards@[q]@[j] != cardid,
{
    let ghost entries = vstd::std_specs::iter::IteratorSpec::remaining(
        &vstd::std_specs::hash::spec_hash_map_iter(playertocards),
    );
    for (playerid, cardidmap) in it: playertocards.iter()
        invariant
            it.seq() == entries,
            forall|q: u8| #[trigger] playertocards@.contains_key(q) ==> playertocards@[q]@.len() <= u32::MAX,
            forall|i: int| 0 <= i < it.index() ==> !(#[trigger] entries[i]).1@.contains(cardid),
    {
        proof {
            assert(entries[it.index()] == (playerid, cardidmap));
            assert(playertocards@.contains_key(*playerid));
            assert(playertocards@[*playerid] == *cardidmap);
        }
        let mut i: usize = 0;
        let mut cardpos: u32 = 0;
        while i < cardidmap.len()
            invariant
                i <= cardidmap.len() <= u32::MAX,
                cardpos == i,
                playertocards@.contains_key(*playerid),
                playertocards@[*playerid] == *cardidmap,
                forall|j: int| 0 <= j < i ==> cardidmap@[j] != cardid,
            decreases cardidmap.len() - i,
        {
            if cardidmap[i] == cardid {
                assert(playertocards@[*playerid]@[cardpos as int] == cardid);
                return cardpos;
            }
            i = i + 1;
            cardpos = cardpos + 1;
        }
    }
    proof {
        let q = choose|q: u8| #[trigger] playertocards@.contains_key(q) && playertocards@[q]@.contains(cardid);
        assert(entries.contains((&q, &playertocards@[q])));
        let i = choose|i: int| 0 <= i < entries.len() && entries[i] == (&q, &playertocards@[q]);
        assert(!entries[i].1@.contains(cardid));
    }
    0
}

/// The player whose pieces include this one; if several, which one is given
/// is left to the order of the map.
pub fn get_owner_of_piece(playertopiece: &HashMap<u8, HashSet<u32>>, pieceid: u32) -> (p: u8)
    requires
        exists|q: u8| #[trigger] playertopiece@.contains_key(q) && playertopiece@[q]@.contains(pieceid),
    ensures
        playertopiece@.contains_key(p) && playertopiece@[p]@.contains(pieceid),
{
    let ghost entries = vstd::std_specs::iter::IteratorSpec::remaining(
        &vstd::std_specs::hash::spec_hash_map_iter(playertopiece),
    );
    for (playerid, piecemap) in it: playertopiece.iter()
        invariant
            it.seq() == entries,
            forall|i: int| 0 <= i < it.index() ==> !(#[trigger] entries[i]).1@.contains(pieceid),
    {
        proof {
            assert(entries[it.index()] == (playerid, piecemap));
            assert(playertopiece@.contains_key(*playerid));
            assert(playertopiece@[*playerid] == *piecemap);
        }
        if piecemap.contains(&pieceid) {
            return *playerid;
        }
    }
    proof {
        let q = choose|q: u8| #[trigger] playertopiece@.contains_key(q) && playertopiece@[q]@.contains(pieceid);
        assert(entries.contains((&q, &playertopiece@[q])));
        let i = choose|i: int| 0 <= i < entries.len() && entries[i] == (&q, &playertopiece@[q]);
        assert(!entries[i].1@.contains(pieceid));
    }
    0
}

/// The card, if it is in this player's hand and exists.
pub fn get_card(playertocards: &HashMap<u8, Vec<u16>>, cards: &HashMap<u16, Card>, cardid: u16, playerid: u8) -> (r: Option<Card>)
    requires
        playertocards@.contains_key(playerid),
    ensures
        r == if playertocards@[playerid]@.contains(cardid) && cards@.contains_key(cardid) {
            Some(cards@[cardid])
        } else {
            None::<Card>
        },
{
    let hand = playertocards.get(&playerid).unwrap();
    let mut i: usize = 0;
    let mut inhand = false;
    while i < hand.len()
        invariant
            i <= hand.len(),
            inhand == exists|j: int| 0 <= j < i && hand@[j] == cardid,
        decreases hand.len() - i,
    {
        if hand[i] == cardid {
            inhand = true;
        }
        i = i + 1;
    }
    if inhand {
        match cards.get(&cardid) {
            Some(card) => Some(*card),
            None => None,
        }
    } else {
        None
    }
}

} // verus!
