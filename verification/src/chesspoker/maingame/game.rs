use vstd::prelude::*;
use crate::mapfacts::lemma_entries_distinct;
use std::collections::HashMap;
use std::collections::HashSet;
use crate::chesspoker::maingame::{CardGame, CardGameView};
use crate::chesspoker::maingame::boardmoves::{move_allowed, move_destination, on_board, step_pos, BoardMove, SquareOccupancy};
use crate::chesspoker::maingame::datastructs::{
    bishop_slides, king_slides, knight_lifts, queen_slides, rook_slides, slide_id_to_direction_change_from_objective_perspective,
    slide_step, unmoved_pawn_slides, Card, CardEffect, CardSuit, CardValue, PieceTypeData, TurnCycle, TurnManager,
    FIRST_TURN_TICKS, SECOND_TURN_TICKS,
};
use crate::chesspoker::maingame::rules::{get_card, get_owner_of_card, initial_layout, piece_type_set, set_piece_type, PlayerInput};

verus! {

broadcast use vstd::std_specs::hash::group_hash_axioms;

/// What the game asks of the physics engine that moves the pieces and squares.
#[allow(non_camel_case_types)]
#[derive(Clone, Copy, Debug)]
pub enum PhysicalAction {
    /// Lift the piece and set it down at this offset.
    liftandmove(u32, (i32, i32)),
    /// Slide the piece this many steps of this size.
    slide(u32, (i32, i32), u8),
    /// Drop the square out of the board for this many ticks.
    longdrop((u8, u8), u32),
}

/// The game as plain values.
pub struct MainGameView {
    pub totalplayers: u8,
    pub totalpieces: u32,
    pub totalcards: u16,
    pub players: Set<u8>,
    /// The pieces each player owns.
    pub playertopiece: Map<u8, Set<u32>>,
    /// The direction each player faces, in eighths of a turn.
    pub playertodirection: Map<u8, u8>,
    /// How each piece moves.
    pub piecetypedata: Map<u32, PieceTypeData>,
    /// Every card by its id.
    pub cards: Map<u16, Card>,
    /// The ids of the cards in each player's hand, in order.
    pub playertocards: Map<u8, Seq<u16>>,
    /// Whose turn it is.
    pub turns: TurnCycle,
    /// The card game going on, if any.
    pub cardgame: Option<CardGameView>,
    /// The input each player has asked for, to be done on their turn.
    pub queuedinputs: Map<u8, Option<PlayerInput>>,
}

/// The card every draw gives (see `Card::new_random_card`).
pub open spec fn is_drawn_card(c: Card) -> bool {
    &&& c.spec_value() == CardValue::ace
    &&& c.spec_suit() == CardSuit::spades
    &&& c.spec_effect() == CardEffect::dropsquare
    &&& !c.spec_isunknown()
}

/// The moves a piece of this kind number has before it acts, the numbers
/// being those of `set_piece_type`.
pub open spec fn kind_moves(d: PieceTypeData, kind: u32) -> bool {
    &&& !d.spec_isking() && !d.spec_takenaction() && !d.spec_cancastle()
    &&& kind == 1 ==> d.slides() == unmoved_pawn_slides() && d.lifts().len() == 0
    &&& kind == 2 ==> d.slides().len() == 0 && d.lifts() == knight_lifts()
    &&& kind == 3 ==> d.slides() == bishop_slides() && d.lifts().len() == 0
    &&& kind == 4 ==> d.slides() == rook_slides() && d.lifts().len() == 0
    &&& kind == 5 ==> d.slides() == queen_slides() && d.lifts().len() == 0
    &&& kind == 6 ==> d.slides() == king_slides() && d.lifts().len() == 0
}

/// The pieces of a player in a new game: those `initial_layout` gives them,
/// a piece's id being its place in that list.
pub open spec fn initial_pieces_of(p: u8) -> Set<u32> {
    Set::new(|k: u32| k < 32 && initial_layout()[k as int].0 == p)
}

/// Whether this is the game as `new_two_player` makes it: players 1 and 2
/// facing directions 0 and 4, four drawn cards each (ids 0 to 3 and 4 to 7),
/// the pieces of `initial_layout`, player 1 on turn, nothing queued, and a
/// poker game on a river of five drawn cards.
pub open spec fn is_new_game(v: MainGameView) -> bool {
    &&& v.totalplayers == 2 && v.totalpieces == 32 && v.totalcards == 8
    &&& v.players == set![1u8, 2u8]
    &&& v.playertodirection == map![1u8 => 0u8, 2u8 => 4u8]
    &&& v.playertocards == map![1u8 => seq![0u16, 1u16, 2u16, 3u16], 2u8 => seq![4u16, 5u16, 6u16, 7u16]]
    &&& v.cards.dom() == Set::new(|c: u16| c < 8)
    &&& forall|c: u16| c < 8 ==> is_drawn_card(#[trigger] v.cards[c])
    &&& v.playertopiece == map![1u8 => initial_pieces_of(1), 2u8 => initial_pieces_of(2)]
    &&& v.piecetypedata.dom() == Set::new(|k: u32| k < 32)
    &&& forall|k: u32| k < 32 ==> kind_moves(#[trigger] v.piecetypedata[k], initial_layout()[k as int].2)
    &&& v.turns == (TurnCycle { player1: 1, player2: 2, phase: 0 })
    &&& v.queuedinputs == map![1u8 => None::<PlayerInput>, 2u8 => None::<PlayerInput>]
    &&& v.cardgame matches Some(g) && {
        &&& g.hands == map![1u8 => Seq::<Card>::empty(), 2u8 => Seq::<Card>::empty()]
        &&& g.river.len() == 5
        &&& forall|i: int| 0 <= i < 5 ==> is_drawn_card(#[trigger] g.river[i])
        &&& g.revealedriver == 3
        &&& g.passed == map![1u8 => false, 2u8 => false]
        &&& !g.blackjack && !g.ended
    }
}

/// What holds of the game at every step: players 1 and 2, each with a hand
/// of distinct cards that exist and that no other hand holds, and pieces that
/// no other player owns; the pieces with moves are those owned.
pub open spec fn game_ok(v: MainGameView) -> bool {
    &&& v.players == set![1u8, 2u8]
    &&& v.playertodirection == map![1u8 => 0u8, 2u8 => 4u8]
    &&& v.playertopiece.dom() == set![1u8, 2u8]
    &&& v.playertocards.dom() == set![1u8, 2u8]
    &&& v.queuedinputs.dom() == set![1u8, 2u8]
    &&& v.turns.player1 == 1 && v.turns.player2 == 2
    &&& v.cardgame matches Some(g) ==> g.hands.dom() == set![1u8, 2u8] && g.passed.contains_key(1)
        && g.passed.contains_key(2)
    &&& forall|p: u8| #[trigger] v.playertocards.contains_key(p) ==> v.playertocards[p].no_duplicates()
        && v.playertocards[p].len() <= u32::MAX
    &&& forall|p: u8, c: u16| #[trigger] v.playertocards[p].contains(c) && v.playertocards.contains_key(p)
        ==> v.cards.contains_key(c)
    &&& forall|p: u8, q: u8, c: u16|
        v.playertocards.contains_key(p) && v.playertocards.contains_key(q) && #[trigger] v.playertocards[p].contains(c)
            && #[trigger] v.playertocards[q].contains(c) ==> p == q
    &&& forall|p: u8, k: u32| #[trigger] v.playertopiece[p].contains(k) && v.playertopiece.contains_key(p)
        ==> v.piecetypedata.contains_key(k)
    &&& forall|k: u32| #[trigger] v.piecetypedata.contains_key(k) ==> exists|p: u8|
        v.playertopiece.contains_key(p) && #[trigger] v.playertopiece[p].contains(k)
    &&& forall|p: u8, q: u8, k: u32|
        v.playertopiece.contains_key(p) && v.playertopiece.contains_key(q) && #[trigger] v.playertopiece[p].contains(k)
            && #[trigger] v.playertopiece[q].contains(k) ==> p == q
}

/// Whether a card game waits for this player's card, which they must then
/// play before anything else (as `forced_to_play`).
pub open spec fn must_play(g: Option<CardGameView>, p: u8) -> bool {
    g matches Some(g) && !g.ended && !g.passed[p] && g.hands[p].len() < if g.blackjack { 4int } else { 2int }
}

/// Whether the piece stands on the square `(x, y)`.
pub open spec fn on_square(squares: Map<u32, (u32, u32)>, k: u32, x: int, y: int) -> bool {
    squares.contains_key(k) && squares[k].0 == x && squares[k].1 == y
}

/// What stands on the square `(x, y)` as the owner of the pieces `mine` sees
/// it.
pub open spec fn seen_occupancy(squares: Map<u32, (u32, u32)>, mine: Set<u32>, x: int, y: int) -> SquareOccupancy {
    if exists|k: u32| #[trigger] on_square(squares, k, x, y) && mine.contains(k) {
        SquareOccupancy::Friendly
    } else if exists|k: u32| #[trigger] on_square(squares, k, x, y) {
        SquareOccupancy::Opponents
    } else {
        SquareOccupancy::Empty
    }
}

/// The board, column by column, as the owner of the pieces `mine` sees it.
pub open spec fn seen_board(squares: Map<u32, (u32, u32)>, mine: Set<u32>) -> Seq<SquareOccupancy> {
    Seq::new(64, |i: int| seen_occupancy(squares, mine, i / 8, i % 8))
}

/// Whether the squares of the pieces, as the physics engine gives them, fit
/// the game: each square is on the board, and each piece belongs to a player.
pub open spec fn board_ok(v: MainGameView, squares: Map<u32, (u32, u32)>) -> bool {
    forall|k: u32| #[trigger] squares.contains_key(k) ==> squares[k].0 < 8 && squares[k].1 < 8 && exists|p: u8|
        v.playertopiece.contains_key(p) && #[trigger] v.playertopiece[p].contains(k)
}

/// The player who owns the piece.
pub open spec fn owner_of(v: MainGameView, k: u32) -> u8 {
    choose|p: u8| v.playertopiece.contains_key(p) && #[trigger] v.playertopiece[p].contains(k)
}

/// The moves the piece may make, as its owner sees the board.
pub open spec fn piece_may_move(v: MainGameView, squares: Map<u32, (u32, u32)>, k: u32, m: BoardMove) -> bool {
    squares.contains_key(k) && move_allowed(
        v.piecetypedata[k],
        v.playertodirection[owner_of(v, k)],
        squares[k],
        seen_board(squares, v.playertopiece[owner_of(v, k)]),
        m,
    )
}

/// Whether the player may do what they ask: play a card from their hand on
/// the board while a card game waits for it, or, with no card game, one that
/// starts blackjack or poker; play a card from their hand on a square, or
/// move one of their pieces as it may move, unless a card game waits for
/// their card. No card can be played on a piece.
pub open spec fn input_valid(v: MainGameView, p: u8, input: PlayerInput, squares: Map<u32, (u32, u32)>) -> bool {
    match input {
        PlayerInput::playcardonboard(c) => v.playertocards[p].contains(c) && if v.cardgame is Some {
            must_play(v.cardgame, p)
        } else {
            v.cards[c].spec_effect() == CardEffect::blackjackgame || v.cards[c].spec_effect() == CardEffect::pokergame
        },
        PlayerInput::playcardonpiece(_, _) => false,
        PlayerInput::playcardonsquare(c, _) => v.playertocards[p].contains(c) && !must_play(v.cardgame, p),
        PlayerInput::pieceaction(k, m) => v.playertopiece[p].contains(k) && !must_play(v.cardgame, p)
            && piece_may_move(v, squares, k, m),
    }
}

/// The player whose hand holds the card.
pub open spec fn card_owner(v: MainGameView, c: u16) -> u8 {
    choose|p: u8| v.playertocards.contains_key(p) && #[trigger] v.playertocards[p].contains(c)
}

/// The game after an input is done: a card played on the board leaves the
/// hand that holds it and goes into that player's hand in the card game, if
/// one is going on; nothing else changes the game itself.
pub open spec fn after_input(v: MainGameView, input: PlayerInput) -> MainGameView {
    match input {
        PlayerInput::playcardonboard(c) => MainGameView {
            playertocards: v.playertocards.insert(
                card_owner(v, c),
                v.playertocards[card_owner(v, c)].filter(|x: u16| x != c),
            ),
            cardgame: match v.cardgame {
                Some(g) => Some(g.after_play(card_owner(v, c), v.cards[c])),
                None => None,
            },
            ..v
        },
        _ => v,
    }
}

/// What the physics engine is asked to do for an input: move the piece as
/// the move says, or drop the square for 50 ticks for a card played on it.
pub open spec fn input_actions(input: PlayerInput) -> Seq<PhysicalAction> {
    match input {
        PlayerInput::pieceaction(k, BoardMove::liftandmove(rel)) => seq![PhysicalAction::liftandmove(k, rel)],
        PlayerInput::pieceaction(k, BoardMove::slide(d, n)) => seq![PhysicalAction::slide(k, slide_step(d), n)],
        PlayerInput::playcardonsquare(_, sq) => seq![PhysicalAction::longdrop(sq, 50)],
        _ => Seq::<PhysicalAction>::empty(),
    }
}

/// The piece a physical action moves and where it takes it from square
/// `sq`: a lift adds its offset, a slide adds its step once per step; a
/// dropped square moves no piece.
pub open spec fn physical_move(a: PhysicalAction, sq: (u32, u32)) -> Option<(u32, (int, int))> {
    match a {
        PhysicalAction::liftandmove(k, rel) => Some((k, (sq.0 + rel.0, sq.1 + rel.1))),
        PhysicalAction::slide(k, step, n) => Some((k, (sq.0 + step.0 * n, sq.1 + step.1 * n))),
        PhysicalAction::longdrop(_, _) => None,
    }
}

/// When the player on turn has queued a piece move that is allowed, the tick
/// asks the physics engine for exactly one action, and that action moves the
/// queued piece from its square to the square the validated move leads to.
pub proof fn lemma_tick_moves_piece_where_validated(v: MainGameView, squares: Map<u32, (u32, u32)>, k: u32, m: BoardMove)
    requires
        v.queuedinputs[v.turns.current_player()] == Some(PlayerInput::pieceaction(k, m)),
        input_valid(v, v.turns.current_player(), PlayerInput::pieceaction(k, m), squares),
    ensures
        after_tick(v, squares).1.len() == 1,
        physical_move(after_tick(v, squares).1[0], squares[k]) == Some((k, move_destination(squares[k], m))),
{
}

/// The game after a tick, and what the physics engine is asked to do: the
/// player on turn does what they queued if they still may, which ends their
/// turn and clears their queue; then the turns move on by a tick.
pub open spec fn after_tick(v: MainGameView, squares: Map<u32, (u32, u32)>) -> (MainGameView, Seq<PhysicalAction>) {
    let p = v.turns.current_player();
    match v.queuedinputs[p] {
        Some(input) => if input_valid(v, p, input, squares) {
            let w = after_input(v, input);
            (
                MainGameView {
                    queuedinputs: w.queuedinputs.insert(p, None),
                    turns: w.turns.after_action(p).ticked(),
                    ..w
                },
                input_actions(input),
            )
        } else {
            (MainGameView { turns: v.turns.ticked(), ..v }, Seq::<PhysicalAction>::empty())
        },
        None => (MainGameView { turns: v.turns.ticked(), ..v }, Seq::<PhysicalAction>::empty()),
    }
}

/// The hand without the card.
fn hand_without(hand: &Vec<u16>, cardid: u16) -> (kept: Vec<u16>)
    ensures
        kept@ == hand@.filter(|x: u16| x != cardid),
        hand@.no_duplicates() ==> kept@.no_duplicates(),
        forall|x: u16| #[trigger] kept@.contains(x) ==> hand@.contains(x) && x != cardid,
        kept@.len() <= hand@.len(),
{
    let mut kept: Vec<u16> = Vec::new();
    let mut i: usize = 0;
    while i < hand.len()
        invariant
            i <= hand.len(),
            kept@ == hand@.take(i as int).filter(|x: u16| x != cardid),
            kept@.len() <= i,
            hand@.no_duplicates() ==> kept@.no_duplicates(),
            forall|x: u16| #[trigger] kept@.contains(x) ==> hand@.take(i as int).contains(x) && x != cardid,
        decreases hand.len() - i,
    {
        proof {
            reveal_with_fuel(Seq::<u16>::filter, 1);
            assert(hand@.take(i + 1).drop_last() =~= hand@.take(i as int));
        }
        let ghost before = kept@;
        if hand[i] != cardid {
            proof {
                if hand@.no_duplicates() && before.contains(hand@[i as int]) {
                    let j = choose|j: int| 0 <= j < i && hand@.take(i as int)[j] == hand@[i as int];
                    assert(hand@[j] == hand@[i as int]);
                }
            }
            kept.push(hand[i]);
        }
        i = i + 1;
        proof {
            assert forall|x: u16| #[trigger] kept@.contains(x) implies hand@.take(i as int).contains(x) && x != cardid by {
                if before.contains(x) {
                    let prev = hand@.take(i - 1);
                    assert(prev.contains(x));
                    let j = choose|j: int| 0 <= j < prev.len() && #[trigger] prev[j] == x;
                    assert(hand@.take(i as int)[j] == x);
                } else {
                    assert(hand@.take(i as int)[i - 1] == x);
                }
            }
        }
    }
    assert(hand@.take(i as int) =~= hand@);
    kept
}

/// The members of a set in the order the set gives them, each once.
fn set_members_u32(s: &HashSet<u32>) -> (keys: Vec<u32>)
    ensures
        keys@.to_set() == s@,
        keys@.no_duplicates(),
{
    let mut toreturn: Vec<u32> = Vec::new();
    let ghost ks = vstd::std_specs::iter::IteratorSpec::remaining(&vstd::std_specs::hash::spec_hash_keys_iter(s));
    for k in it: s.iter()
        invariant
            it.seq() == ks,
            toreturn@ == ks.take(it.index()).map_values(|x: &u32| *x),
    {
        toreturn.push(*k);
    }
    assert(toreturn@ =~= ks.unref());
    toreturn
}

/// A move a piece may make ends on the board.
proof fn lemma_allowed_move_on_board(v: MainGameView, squares: Map<u32, (u32, u32)>, k: u32, m: BoardMove)
    requires
        piece_may_move(v, squares, k, m),
    ensures
        on_board(move_destination(squares[k], m)),
{
    let sq = squares[k];
    let st = (sq.0 as int, sq.1 as int);
    if let BoardMove::slide(d, n) = m {
        assert(on_board(step_pos(st, d, n as int)));
        assert(n as int * slide_step(d).0 == slide_step(d).0 * n as int) by (nonlinear_arith);
        assert(n as int * slide_step(d).1 == slide_step(d).1 * n as int) by (nonlinear_arith);
    }
}

/// Adds a square to a list of squares, unless it is there already.
fn push_square(squares: &mut Vec<(u32, u32)>, sq: (u32, u32))
    ensures
        forall|t: (u32, u32)| #[trigger] final(squares)@.contains(t) <==> old(squares)@.contains(t) || t == sq,
        old(squares)@.no_duplicates() ==> final(squares)@.no_duplicates(),
{
    let mut i: usize = 0;
    while i < squares.len()
        invariant
            i <= squares@.len(),
            squares@ == old(squares)@,
            forall|j: int| 0 <= j < i ==> squares@[j] != sq,
        decreases squares.len() - i,
    {
        if squares[i].0 == sq.0 && squares[i].1 == sq.1 {
            assert(squares@[i as int] == sq);
            return;
        }
        i = i + 1;
    }
    squares.push(sq);
    proof {
        assert forall|t: (u32, u32)| #[trigger] squares@.contains(t) <==> old(squares)@.contains(t) || t == sq by {
            if t == sq {
                assert(squares@[squares@.len() - 1] == sq);
            }
            if old(squares)@.contains(t) {
                let j = choose|j: int| 0 <= j < old(squares)@.len() && old(squares)@[j] == t;
                assert(squares@[j] == t);
            }
        }
    }
}

/// Whether a listed piece stands on the square `(x, y)`.
spec fn entry_at(e: (&u32, &(u32, u32)), x: int, y: int) -> bool {
    e.1.0 == x && e.1.1 == y
}

/// What stands on the square `(x, y)` after the first `n` listed pieces,
/// as the owner of the pieces `mine` sees it.
spec fn prefix_occupancy(entries: Seq<(&u32, &(u32, u32))>, n: int, mine: Set<u32>, x: int, y: int) -> SquareOccupancy {
    if exists|j: int| 0 <= j < n && #[trigger] entry_at(entries[j], x, y) && mine.contains(*entries[j].0) {
        SquareOccupancy::Friendly
    } else if exists|j: int| 0 <= j < n && #[trigger] entry_at(entries[j], x, y) {
        SquareOccupancy::Opponents
    } else {
        SquareOccupancy::Empty
    }
}

proof fn lemma_square_index(x: int, y: int, j: int)
    requires
        0 <= x < 8,
        0 <= y < 8,
        0 <= j < 64,
    ensures
        0 <= x * 8 + y < 64,
        (x * 8 + y) / 8 == x,
        (x * 8 + y) % 8 == y,
        (j / 8 == x && j % 8 == y) <==> j == x * 8 + y,
{
    assert(0 <= x * 8 + y < 64 && (x * 8 + y) / 8 == x && (x * 8 + y) % 8 == y) by (nonlinear_arith)
        requires
            0 <= x < 8,
            0 <= y < 8,
    ;
    assert(j == (j / 8) * 8 + j % 8 && 0 <= j % 8 < 8) by (nonlinear_arith)
        requires
            0 <= j < 64,
    ;
}

/// A card that the player on turn plays on the board in a tick leaves every
/// hand, and, while a card game is going on, lands in that player's hand in
/// the card game; the other cards stay in the hands where they were.
pub proof fn lemma_tick_plays_card_into_game(v: MainGameView, squares: Map<u32, (u32, u32)>, c: u16)
    requires
        game_ok(v),
        v.queuedinputs[v.turns.current_player()] == Some(PlayerInput::playcardonboard(c)),
        input_valid(v, v.turns.current_player(), PlayerInput::playcardonboard(c), squares),
    ensures
        ({
            let p = v.turns.current_player();
            let w = after_tick(v, squares).0;
            &&& forall|q: u8| #[trigger] w.playertocards.contains_key(q) ==> !w.playertocards[q].contains(c)
            &&& forall|q: u8, d: u16| d != c && v.playertocards.contains_key(q) ==> (#[trigger] w.playertocards[q].contains(d)
                <==> #[trigger] v.playertocards[q].contains(d))
            &&& v.cardgame matches Some(g) ==> w.cardgame == Some(g.after_play(p, v.cards[c]))
                && w.cardgame->0.hands[p] == g.hands[p].push(v.cards[c])
        }),
{
    let p = v.turns.current_player();
    let w = after_tick(v, squares).0;
    assert(card_owner(v, c) == p);
    let kept = v.playertocards[p].filter(|x: u16| x != c);
    assert forall|q: u8| #[trigger] w.playertocards.contains_key(q) implies !w.playertocards[q].contains(c) by {
        if q == p {
            if kept.contains(c) {
                let j = choose|j: int| 0 <= j < kept.len() && kept[j] == c;
                v.playertocards[p].lemma_filter_pred(|x: u16| x != c, j);
            }
        } else if v.playertocards[q].contains(c) {
            assert(v.playertocards[p].contains(c));
        }
    }
    assert forall|q: u8, d: u16| d != c && v.playertocards.contains_key(q) implies (#[trigger] w.playertocards[q].contains(d)
        <==> #[trigger] v.playertocards[q].contains(d)) by {
        if q == p {
            if kept.contains(d) {
                v.playertocards[p].lemma_filter_contains_rev(|x: u16| x != c, d);
            }
            if v.playertocards[p].contains(d) {
                let j = choose|j: int| 0 <= j < v.playertocards[p].len() && v.playertocards[p][j] == d;
                v.playertocards[p].lemma_filter_contains(|x: u16| x != c, j);
            }
        }
    }
}

/// When the player on turn does what they queued, the tick hands the turn to
/// the other player and clears their queue; when they do not, only the turn
/// cycle moves on.
pub proof fn lemma_tick_passes_turn(v: MainGameView, squares: Map<u32, (u32, u32)>)
    requires
        game_ok(v),
        0 <= v.turns.phase < FIRST_TURN_TICKS + SECOND_TURN_TICKS,
    ensures
        ({
            let p = v.turns.current_player();
            let (w, actions) = after_tick(v, squares);
            &&& (v.queuedinputs[p] matches Some(input) && input_valid(v, p, input, squares)) ==> {
                &&& w.turns.current_player() != p
                &&& w.queuedinputs[p] is None
            }
            &&& !(v.queuedinputs[p] matches Some(input) && input_valid(v, p, input, squares)) ==> {
                &&& w == (MainGameView { turns: v.turns.ticked(), ..v })
                &&& actions.len() == 0
            }
        }),
{
}

/// Every piece of a new game belongs to player 1 or player 2.
proof fn lemma_layout_owners()
    ensures
        initial_layout().len() == 32,
        forall|i: int| 0 <= i < 32 ==> (#[trigger] initial_layout()[i]).0 == 1 || initial_layout()[i].0 == 2,
{
    let lay = initial_layout();
    assert forall|i: int| 0 <= i < 32 implies (#[trigger] lay[i]).0 == 1 || lay[i].0 == 2 by {
        if i >= 16 {
            let back = lay.subrange(16, 32);
            assert(back[i - 16] == lay[i]);
        }
    }
}

/// The game of chess, cards and card games between two players: everything
/// but the physics of the board, which it asks for by `PhysicalAction`s.
pub struct MainGame {
    totalplayers: u8,
    totalpieces: u32,
    totalcards: u16,
    players: HashSet<u8>,
    playertopiece: HashMap<u8, HashSet<u32>>,
    playertodirection: HashMap<u8, u8>,
    piecetypedata: HashMap<u32, PieceTypeData>,
    cards: HashMap<u16, Card>,
    playertocards: HashMap<u8, Vec<u16>>,
    turnmanager: TurnManager,
    cardgame: Option<CardGame>,
    queuedinputs: HashMap<u8, Option<PlayerInput>>,
}

impl View for MainGame {
    type V = MainGameView;

    closed spec fn view(&self) -> MainGameView {
        MainGameView {
            totalplayers: self.totalplayers,
            totalpieces: self.totalpieces,
            totalcards: self.totalcards,
            players: self.players@,
            playertopiece: self.playertopiece@.map_values(|s: HashSet<u32>| s@),
            playertodirection: self.playertodirection@,
            piecetypedata: self.piecetypedata@,
            cards: self.cards@,
            playertocards: self.playertocards@.map_values(|h: Vec<u16>| h@),
            turns: self.turnmanager@,
            cardgame: match self.cardgame {
                Some(g) => Some(g@),
                None => None,
            },
            queuedinputs: self.queuedinputs@,
        }
    }
}

impl MainGame {
    /// The game keeps `game_ok`, with a turn manager and card game in order.
    pub closed spec fn wf(&self) -> bool {
        &&& game_ok(self@)
        &&& self.turnmanager.wf()
        &&& self.cardgame matches Some(g) ==> g.wf()
    }

    /// The board, column by column, as the player sees it: empty squares,
    /// squares with some piece of theirs, squares with only other pieces.
    fn seen_board_of(&self, piecesquares: &HashMap<u32, (u32, u32)>, playerid: u8) -> (board: Vec<SquareOccupancy>)
        requires
            self.wf(),
            board_ok(self@, piecesquares@),
            self@.playertopiece.contains_key(playerid),
        ensures
            board@ == seen_board(piecesquares@, self@.playertopiece[playerid]),
    {
        let mut board: Vec<SquareOccupancy> = Vec::new();
        let mut i: usize = 0;
        while i < 64
            invariant
                i <= 64,
                board@.len() == i,
                forall|j: int| 0 <= j < i ==> #[trigger] board@[j] == SquareOccupancy::Empty,
            decreases 64 - i,
        {
            board.push(SquareOccupancy::Empty);
            i = i + 1;
        }
        let ghost mine = self@.playertopiece[playerid];
        let ghost entries = vstd::std_specs::iter::IteratorSpec::remaining(
            &vstd::std_specs::hash::spec_hash_map_iter(piecesquares),
        );
        for (pieceid, square) in it: piecesquares.iter()
            invariant
                it.seq() == entries,
                self.wf(),
                board_ok(self@, piecesquares@),
                self@.playertopiece.contains_key(playerid),
                mine == self@.playertopiece[playerid],
                board@.len() == 64,
                forall|j: int| 0 <= j < 64 ==> #[trigger] board@[j] == prefix_occupancy(entries, it.index() as int, mine, j / 8, j % 8),
        {
            let ghost n = it.index() as int;
            proof {
                assert(entries[n] == (pieceid, square));
                assert(piecesquares@.contains_key(*pieceid));
                assert(piecesquares@[*pieceid] == *square);
                let q = choose|q: u8| self@.playertopiece.contains_key(q) && #[trigger] self@.playertopiece[q].contains(*pieceid);
                assert(self.playertopiece@[q]@.contains(*pieceid));
            }
            let idx: usize = (square.0 * 8 + square.1) as usize;
            let owner = crate::chesspoker::maingame::rules::get_owner_of_piece(&self.playertopiece, *pieceid);
            let ghost before = board@;
            proof {
                assert(self@.playertopiece[owner].contains(*pieceid));
                lemma_square_index(square.0 as int, square.1 as int, 0);
            }
            if owner == playerid {
                board.set(idx, SquareOccupancy::Friendly);
            } else if board[idx] == SquareOccupancy::Empty {
                board.set(idx, SquareOccupancy::Opponents);
            }
            proof {
                assert(mine.contains(*pieceid) <==> owner == playerid);
                assert forall|j: int| 0 <= j < 64 implies #[trigger] board@[j] == prefix_occupancy(entries, n + 1, mine, j / 8, j % 8) by {
                    lemma_square_index(square.0 as int, square.1 as int, j);
                    let x = j / 8;
                    let y = j % 8;
                    assert(entry_at(entries[n], x, y) <==> j == idx);
                    if exists|l: int| 0 <= l < n + 1 && #[trigger] entry_at(entries[l], x, y) && mine.contains(*entries[l].0) {
                        let l = choose|l: int| 0 <= l < n + 1 && #[trigger] entry_at(entries[l], x, y) && mine.contains(*entries[l].0);
                        if l < n {
                            assert(before[j] == SquareOccupancy::Friendly);
                        }
                    }
                    if exists|l: int| 0 <= l < n + 1 && #[trigger] entry_at(entries[l], x, y) {
                        let l = choose|l: int| 0 <= l < n + 1 && #[trigger] entry_at(entries[l], x, y);
                        if l < n {
                            assert(before[j] != SquareOccupancy::Empty);
                        }
                    }
                }
            }
        }
        proof {
            let squares = piecesquares@;
            assert forall|j: int| 0 <= j < 64 implies #[trigger] board@[j] == seen_board(squares, mine)[j] by {
                let x = j / 8;
                let y = j % 8;
                if exists|l: int| 0 <= l < entries.len() && #[trigger] entry_at(entries[l], x, y) {
                    let l = choose|l: int| 0 <= l < entries.len() && #[trigger] entry_at(entries[l], x, y);
                    assert(squares.contains_key(*entries[l].0) && squares[*entries[l].0] == *entries[l].1);
                    assert(on_square(squares, *entries[l].0, x, y));
                }
                if exists|l: int| 0 <= l < entries.len() && #[trigger] entry_at(entries[l], x, y) && mine.contains(*entries[l].0) {
                    let l = choose|l: int| 0 <= l < entries.len() && #[trigger] entry_at(entries[l], x, y) && mine.contains(*entries[l].0);
                    assert(squares.contains_key(*entries[l].0) && squares[*entries[l].0] == *entries[l].1);
                    assert(on_square(squares, *entries[l].0, x, y));
                }
                if exists|k: u32| #[trigger] on_square(squares, k, x, y) {
                    let k = choose|k: u32| #[trigger] on_square(squares, k, x, y);
                    assert(entries.contains((&k, &squares[k])));
                    let l = choose|l: int| 0 <= l < entries.len() && entries[l] == (&k, &squares[k]);
                    assert(entry_at(entries[l], x, y));
                }
                if exists|k: u32| #[trigger] on_square(squares, k, x, y) && mine.contains(k) {
                    let k = choose|k: u32| #[trigger] on_square(squares, k, x, y) && mine.contains(k);
                    assert(entries.contains((&k, &squares[k])));
                    let l = choose|l: int| 0 <= l < entries.len() && entries[l] == (&k, &squares[k]);
                    assert(entry_at(entries[l], x, y));
                }
            }
            assert(board@ =~= seen_board(squares, mine));
        }
        board
    }

    /// The moves the piece may make now (see `piece_may_move`): none if it is
    /// not on a square.
    pub fn get_slide_and_lift_actions_allowed_for_piece(
        &self,
        pieceid: u32,
        piecesquares: &HashMap<u32, (u32, u32)>,
    ) -> (r: Vec<BoardMove>)
        requires
            self.wf(),
            board_ok(self@, piecesquares@),
            self@.piecetypedata.contains_key(pieceid),
        ensures
            forall|m: BoardMove| #[trigger] r@.contains(m) <==> piece_may_move(self@, piecesquares@, pieceid, m),
    {
        let piecetypedata = self.piecetypedata.get(&pieceid).unwrap();
        let maybesquare = piecesquares.get(&pieceid);
        if maybesquare.is_none() {
            return Vec::new();
        }
        let square = *maybesquare.unwrap();
        proof {
            let q = choose|q: u8| self@.playertopiece.contains_key(q) && #[trigger] self@.playertopiece[q].contains(pieceid);
            assert(self.playertopiece@[q]@.contains(pieceid));
        }
        let owner = crate::chesspoker::maingame::rules::get_owner_of_piece(&self.playertopiece, pieceid);
        proof {
            assert(self@.playertopiece[owner].contains(pieceid));
            assert(owner == owner_of(self@, pieceid));
        }
        let ownerdirection = *self.playertodirection.get(&owner).unwrap();
        let board = self.seen_board_of(piecesquares, owner);
        crate::chesspoker::maingame::boardmoves::get_slide_and_lift_actions_allowed_for_piece(
            piecetypedata,
            ownerdirection,
            Some(square),
            &board,
        )
    }

    /// Whether the player may do what they ask now (see `input_valid`).
    fn is_input_valid(&self, playerid: u8, input: &PlayerInput, piecesquares: &HashMap<u32, (u32, u32)>) -> (b: bool)
        requires
            self.wf(),
            board_ok(self@, piecesquares@),
            playerid == 1 || playerid == 2,
        ensures
            b == input_valid(self@, playerid, *input, piecesquares@),
    {
        proof {
            assert(self@.playertocards.contains_key(playerid));
            assert(self.playertocards@.contains_key(playerid));
            assert(self@.playertopiece.contains_key(playerid));
            assert(self.playertopiece@.contains_key(playerid));
        }
        let hand = self.playertocards.get(&playerid).unwrap();
        let pieces = self.playertopiece.get(&playerid).unwrap();
        let mut allowed: Vec<BoardMove> = Vec::new();
        if let PlayerInput::pieceaction(pieceid, _) = input {
            if pieces.contains(pieceid) {
                proof {
                    assert(self@.playertopiece[playerid].contains(*pieceid));
                }
                allowed = self.get_slide_and_lift_actions_allowed_for_piece(*pieceid, piecesquares);
                proof {
                    assert(owner_of(self@, *pieceid) == playerid);
                }
            }
        }
        proof {
            assert forall|c: u16| #[trigger] hand@.contains(c) implies self.cards@.contains_key(c) by {
                assert(self@.playertocards[playerid].contains(c));
            }
        }
        crate::chesspoker::maingame::rules::is_input_valid(
            playerid,
            input,
            hand,
            pieces,
            &self.cards,
            &self.cardgame,
            &allowed,
        )
    }

    /// Queues what the player asks, to be done on their turn, if they may do
    /// it now (see `input_valid`); says whether they may.
    pub fn receive_input(&mut self, playerid: u8, input: PlayerInput, piecesquares: &HashMap<u32, (u32, u32)>) -> (b: bool)
        requires
            old(self).wf(),
            board_ok(old(self)@, piecesquares@),
            playerid == 1 || playerid == 2,
        ensures
            final(self).wf(),
            b == input_valid(old(self)@, playerid, input, piecesquares@),
            b ==> final(self)@ == (MainGameView {
                queuedinputs: old(self)@.queuedinputs.insert(playerid, Some(input)),
                ..old(self)@
            }),
            !b ==> final(self)@ == old(self)@,
    {
        if self.is_input_valid(playerid, &input, piecesquares) {
            self.queuedinputs.insert(playerid, Some(input));
            proof {
                assert(self@.playertocards =~= old(self)@.playertocards);
                assert(self@.playertopiece =~= old(self)@.playertopiece);
                assert(self@.queuedinputs.dom() =~= set![1u8, 2u8]);
            }
            true
        } else {
            false
        }
    }

    /// Does an input (see `after_input` and `input_actions`): gives the
    /// physics engine the move of the piece or the drop of the square, or
    /// takes a card played on the board out of the hand that holds it and
    /// plays it in the card game, if one is going on.
    fn perform_input(&mut self, playerinput: &PlayerInput) -> (actions: Vec<PhysicalAction>)
        requires
            old(self).wf(),
            *playerinput matches PlayerInput::playcardonboard(c) ==> {
                &&& exists|p: u8| old(self)@.playertocards.contains_key(p) && #[trigger] old(self)@.playertocards[p].contains(c)
                &&& old(self)@.cardgame is Some ==> must_play(old(self)@.cardgame, card_owner(old(self)@, c))
            },
        ensures
            final(self).wf(),
            final(self)@ == after_input(old(self)@, *playerinput),
            final(self).turnmanager == old(self).turnmanager,
            actions@ == input_actions(*playerinput),
    {
        let mut actions: Vec<PhysicalAction> = Vec::new();
        if let PlayerInput::pieceaction(pieceid, pieceaction) = playerinput {
            match pieceaction {
                BoardMove::liftandmove(relativeposition) => {
                    actions.push(PhysicalAction::liftandmove(*pieceid, *relativeposition));
                },
                BoardMove::slide(slidedirection, slidedistance) => {
                    let step = slide_id_to_direction_change_from_objective_perspective(*slidedirection);
                    actions.push(PhysicalAction::slide(*pieceid, step, *slidedistance));
                },
            }
        }
        if let PlayerInput::playcardonboard(cardid) = playerinput {
            let ghost c = *cardid;
            let ghost v = self@;
            proof {
                let q = choose|q: u8| v.playertocards.contains_key(q) && #[trigger] v.playertocards[q].contains(c);
                assert(self.playertocards@[q]@.contains(c));
            }
            let playerid = get_owner_of_card(&self.playertocards, *cardid);
            proof {
                assert(v.playertocards[playerid].contains(c));
                assert(playerid == card_owner(v, c));
            }
            let thecard = get_card(&self.playertocards, &self.cards, *cardid, playerid);
            let playershand = self.playertocards.remove(&playerid).unwrap();
            let kept = hand_without(&playershand, *cardid);
            self.playertocards.insert(playerid, kept);
            if self.cardgame.is_some() {
                let mut cardgame = self.cardgame.take().unwrap();
                cardgame.play_card(playerid, thecard.unwrap());
                self.cardgame = Some(cardgame);
            }
            proof {
                let w = self@;
                assert(w.playertocards =~= v.playertocards.insert(playerid, v.playertocards[playerid].filter(|x: u16| x != c)));
                assert(w.playertopiece =~= v.playertopiece);
                assert(w.playertocards.dom() =~= set![1u8, 2u8]);
                assert forall|p: u8| #[trigger] w.playertocards.contains_key(p) implies w.playertocards[p].no_duplicates()
                    && w.playertocards[p].len() <= u32::MAX by {
                    if p != playerid {
                        assert(w.playertocards[p] == v.playertocards[p]);
                    }
                }
                assert forall|p: u8, x: u16| #[trigger] w.playertocards[p].contains(x) && w.playertocards.contains_key(p)
                    implies w.cards.contains_key(x) by {
                    if p == playerid {
                        assert(v.playertocards[p].contains(x));
                    }
                }
                assert forall|p: u8, q: u8, x: u16|
                    w.playertocards.contains_key(p) && w.playertocards.contains_key(q) && #[trigger] w.playertocards[p].contains(x)
                        && #[trigger] w.playertocards[q].contains(x) implies p == q by {
                    assert(v.playertocards[p].contains(x));
                    assert(v.playertocards[q].contains(x));
                }
                if let Some(g) = w.cardgame {
                    assert(g.hands.dom() =~= set![1u8, 2u8]);
                }
            }
        }
        if let PlayerInput::playcardonsquare(_, squareid) = playerinput {
            actions.push(PhysicalAction::longdrop(*squareid, 50));
        }
        proof {
            assert(actions@ =~= input_actions(*playerinput));
        }
        actions
    }

    /// One tick (see `after_tick`): the player on turn does what they queued
    /// if they still may, which ends their turn and clears their queue; then
    /// the turns move on. Gives what the physics engine must do.
    pub fn tick(&mut self, piecesquares: &HashMap<u32, (u32, u32)>) -> (actions: Vec<PhysicalAction>)
        requires
            old(self).wf(),
            board_ok(old(self)@, piecesquares@),
        ensures
            final(self).wf(),
            (final(self)@, actions@) == after_tick(old(self)@, piecesquares@),
    {
        let currentturnplayers = self.turnmanager.get_current_players();
        let onturn = crate::board::piecetype::set_members(&currentturnplayers);
        let ghost p = self@.turns.current_player();
        proof {
            onturn@.unique_seq_to_set();
            assert(onturn@.len() == 1);
            assert(onturn@.to_set().contains(onturn@[0]));
        }
        let mut actions: Vec<PhysicalAction> = Vec::new();
        let playerid = onturn[0];
        proof {
            assert(playerid == p);
            assert(self@.turns.player1 == 1 && self@.turns.player2 == 2);
            assert(playerid == 1 || playerid == 2);
            assert(self.queuedinputs@.contains_key(playerid));
        }
        let mut actionwastaken = false;
        let queued: Option<PlayerInput> = *self.queuedinputs.get(&playerid).unwrap();
        if let Some(playerinput) = queued {
            if self.is_input_valid(playerid, &playerinput, piecesquares) {
                proof {
                    if let PlayerInput::playcardonboard(c) = playerinput {
                        assert(self@.playertocards[playerid].contains(c));
                        assert(card_owner(self@, c) == playerid);
                    }
                }
                actions = self.perform_input(&playerinput);
                actionwastaken = true;
            }
        }
        if actionwastaken {
            self.turnmanager.player_took_action(playerid);
            self.queuedinputs.insert(playerid, None);
        }
        self.turnmanager.tick();
        proof {
            assert(self@.playertocards =~= after_tick(old(self)@, piecesquares@).0.playertocards);
            assert(self@.playertopiece =~= after_tick(old(self)@, piecesquares@).0.playertopiece);
            assert(self@.queuedinputs.dom() =~= set![1u8, 2u8]);
        }
        actions
    }

    /// The ids of every player's pieces, each once, in the order the maps
    /// give them.
    pub fn get_all_piece_ids(&self) -> (r: Vec<u32>)
        requires
            self.wf(),
        ensures
            r@.no_duplicates(),
            forall|k: u32| #[trigger] r@.contains(k) <==> exists|p: u8|
                self@.playertopiece.contains_key(p) && #[trigger] self@.playertopiece[p].contains(k),
    {
        let ghost entries = vstd::std_specs::iter::IteratorSpec::remaining(
            &vstd::std_specs::hash::spec_hash_map_iter(&self.playertopiece),
        );
        proof {
            lemma_entries_distinct(&self.playertopiece);
        }
        let mut toreturn: Vec<u32> = Vec::new();
        for (playerid, pieceidmap) in it: self.playertopiece.iter()
            invariant
                it.seq() == entries,
                self.wf(),
                forall|i: int, j: int| 0 <= i < entries.len() && 0 <= j < entries.len() && i != j
                    ==> #[trigger] entries[i].0 != #[trigger] entries[j].0,
                toreturn@.no_duplicates(),
                forall|k: u32| #[trigger] toreturn@.contains(k) <==> exists|j: int|
                    0 <= j < it.index() && (#[trigger] entries[j]).1@.contains(k),
        {
            let ghost n = it.index() as int;
            proof {
                assert(entries[n] == (playerid, pieceidmap));
                assert(self.playertopiece@.contains_key(*playerid));
                assert(self@.playertopiece[*playerid] == pieceidmap@);
            }
            let members = set_members_u32(pieceidmap);
            let ghost before = toreturn@;
            proof {
                assert forall|k: u32| #[trigger] before.contains(k) implies !pieceidmap@.contains(k) by {
                    if pieceidmap@.contains(k) {
                        let j = choose|j: int| 0 <= j < n && (#[trigger] entries[j]).1@.contains(k);
                        assert(self.playertopiece@.contains_key(*entries[j].0));
                        assert(self@.playertopiece[*entries[j].0].contains(k));
                        assert(self@.playertopiece[*playerid].contains(k));
                        assert(entries[j].0 != entries[n].0);
                    }
                }
            }
            let mut i: usize = 0;
            while i < members.len()
                invariant
                    i <= members@.len(),
                    members@.to_set() == pieceidmap@,
                    members@.no_duplicates(),
                    toreturn@ == before + members@.take(i as int),
                    toreturn@.no_duplicates(),
                    forall|k: u32| #[trigger] before.contains(k) ==> !pieceidmap@.contains(k),
                decreases members.len() - i,
            {
                proof {
                    assert(members@.to_set().contains(members@[i as int]));
                    if toreturn@.contains(members@[i as int]) {
                        let j = choose|j: int| 0 <= j < toreturn@.len() && toreturn@[j] == members@[i as int];
                        if j >= before.len() {
                            assert(members@[j - before.len()] == members@[i as int]);
                        } else {
                            assert(before.contains(members@[i as int]));
                        }
                    }
                }
                toreturn.push(members[i]);
                i = i + 1;
                proof {
                    assert(toreturn@ =~= before + members@.take(i as int));
                }
            }
            proof {
                assert(members@.take(i as int) =~= members@);
                assert forall|k: u32| #[trigger] toreturn@.contains(k) <==> exists|j: int|
                    0 <= j < n + 1 && (#[trigger] entries[j]).1@.contains(k) by {
                    if toreturn@.contains(k) {
                        let l = choose|l: int| 0 <= l < toreturn@.len() && toreturn@[l] == k;
                        if l >= before.len() {
                            assert(members@.contains(k));
                            assert(members@.to_set().contains(k));
                            assert(entries[n].1@.contains(k));
                        } else {
                            assert(before.contains(k));
                        }
                    }
                    if exists|j: int| 0 <= j < n + 1 && (#[trigger] entries[j]).1@.contains(k) {
                        let j = choose|j: int| 0 <= j < n + 1 && (#[trigger] entries[j]).1@.contains(k);
                        if j == n {
                            assert(members@.to_set().contains(k));
                            let l = choose|l: int| 0 <= l < members@.len() && members@[l] == k;
                            assert(toreturn@[before.len() + l] == k);
                        } else {
                            assert(before.contains(k));
                            let l = choose|l: int| 0 <= l < before.len() && before[l] == k;
                            assert(toreturn@[l] == k);
                        }
                    }
                }
            }
        }
        proof {
            assert forall|k: u32| #[trigger] toreturn@.contains(k) <==> exists|p: u8|
                self@.playertopiece.contains_key(p) && #[trigger] self@.playertopiece[p].contains(k) by {
                if toreturn@.contains(k) {
                    let j = choose|j: int| 0 <= j < entries.len() && (#[trigger] entries[j]).1@.contains(k);
                    assert(self.playertopiece@.contains_key(*entries[j].0));
                    assert(self@.playertopiece[*entries[j].0].contains(k));
                }
                if exists|p: u8| self@.playertopiece.contains_key(p) && #[trigger] self@.playertopiece[p].contains(k) {
                    let p = choose|p: u8| self@.playertopiece.contains_key(p) && #[trigger] self@.playertopiece[p].contains(k);
                    assert(entries.contains((&p, &self.playertopiece@[p])));
                    let j = choose|j: int| 0 <= j < entries.len() && entries[j] == (&p, &self.playertopiece@[p]);
                    assert(entries[j].1@.contains(k));
                }
            }
        }
        toreturn
    }

    /// The ids of the cards in every player's hand, each once, hand by hand
    /// in the order the map gives them.
    pub fn get_all_card_ids(&self) -> (r: Vec<u16>)
        requires
            self.wf(),
        ensures
            r@.no_duplicates(),
            forall|c: u16| #[trigger] r@.contains(c) <==> exists|p: u8|
                self@.playertocards.contains_key(p) && #[trigger] self@.playertocards[p].contains(c),
    {
        let ghost entries = vstd::std_specs::iter::IteratorSpec::remaining(
            &vstd::std_specs::hash::spec_hash_map_iter(&self.playertocards),
        );
        proof {
            lemma_entries_distinct(&self.playertocards);
        }
        let mut toreturn: Vec<u16> = Vec::new();
        for (playerid, cardidmap) in it: self.playertocards.iter()
            invariant
                it.seq() == entries,
                self.wf(),
                forall|i: int, j: int| 0 <= i < entries.len() && 0 <= j < entries.len() && i != j
                    ==> #[trigger] entries[i].0 != #[trigger] entries[j].0,
                toreturn@.no_duplicates(),
                forall|c: u16| #[trigger] toreturn@.contains(c) <==> exists|j: int|
                    0 <= j < it.index() && (#[trigger] entries[j]).1@.contains(c),
        {
            let ghost n = it.index() as int;
            proof {
                assert(entries[n] == (playerid, cardidmap));
                assert(self.playertocards@.contains_key(*playerid));
                assert(self@.playertocards[*playerid] == cardidmap@);
                assert(self@.playertocards.contains_key(*playerid));
                assert(cardidmap@.no_duplicates());
            }
            let ghost before = toreturn@;
            proof {
                assert forall|c: u16| #[trigger] before.contains(c) implies !cardidmap@.contains(c) by {
                    if cardidmap@.contains(c) {
                        let j = choose|j: int| 0 <= j < n && (#[trigger] entries[j]).1@.contains(c);
                        assert(self.playertocards@.contains_key(*entries[j].0));
                        assert(self@.playertocards[*entries[j].0].contains(c));
                        assert(self@.playertocards[*playerid].contains(c));
                        assert(entries[j].0 != entries[n].0);
                    }
                }
            }
            let mut i: usize = 0;
            while i < cardidmap.len()
                invariant
                    i <= cardidmap@.len(),
                    cardidmap@.no_duplicates(),
                    toreturn@ == before + cardidmap@.take(i as int),
                    toreturn@.no_duplicates(),
                    forall|c: u16| #[trigger] before.contains(c) ==> !cardidmap@.contains(c),
                decreases cardidmap.len() - i,
            {
                proof {
                    if toreturn@.contains(cardidmap@[i as int]) {
                        let j = choose|j: int| 0 <= j < toreturn@.len() && toreturn@[j] == cardidmap@[i as int];
                        if j >= before.len() {
                            assert(cardidmap@[j - before.len()] == cardidmap@[i as int]);
                        } else {
                            assert(before.contains(cardidmap@[i as int]));
                        }
                    }
                }
                toreturn.push(cardidmap[i]);
                i = i + 1;
                proof {
                    assert(toreturn@ =~= before + cardidmap@.take(i as int));
                }
            }
            proof {
                assert(cardidmap@.take(i as int) =~= cardidmap@);
                assert forall|c: u16| #[trigger] toreturn@.contains(c) <==> exists|j: int|
                    0 <= j < n + 1 && (#[trigger] entries[j]).1@.contains(c) by {
                    if toreturn@.contains(c) {
                        let l = choose|l: int| 0 <= l < toreturn@.len() && toreturn@[l] == c;
                        if l >= before.len() {
                            assert(cardidmap@[l - before.len()] == c);
                            assert(entries[n].1@.contains(c));
                        } else {
                            assert(before.contains(c));
                        }
                    }
                    if exists|j: int| 0 <= j < n + 1 && (#[trigger] entries[j]).1@.contains(c) {
                        let j = choose|j: int| 0 <= j < n + 1 && (#[trigger] entries[j]).1@.contains(c);
                        if j == n {
                            let l = choose|l: int| 0 <= l < cardidmap@.len() && cardidmap@[l] == c;
                            assert(toreturn@[before.len() + l] == c);
                        } else {
                            assert(before.contains(c));
                            let l = choose|l: int| 0 <= l < before.len() && before[l] == c;
                            assert(toreturn@[l] == c);
                        }
                    }
                }
            }
        }
        proof {
            assert forall|c: u16| #[trigger] toreturn@.contains(c) <==> exists|p: u8|
                self@.playertocards.contains_key(p) && #[trigger] self@.playertocards[p].contains(c) by {
                if toreturn@.contains(c) {
                    let j = choose|j: int| 0 <= j < entries.len() && (#[trigger] entries[j]).1@.contains(c);
                    assert(self.playertocards@.contains_key(*entries[j].0));
                    assert(self@.playertocards[*entries[j].0].contains(c));
                }
                if exists|p: u8| self@.playertocards.contains_key(p) && #[trigger] self@.playertocards[p].contains(c) {
                    let p = choose|p: u8| self@.playertocards.contains_key(p) && #[trigger] self@.playertocards[p].contains(c);
                    assert(entries.contains((&p, &self.playertocards@[p])));
                    let j = choose|j: int| 0 <= j < entries.len() && entries[j] == (&p, &self.playertocards@[p]);
                    assert(entries[j].1@.contains(c));
                }
            }
        }
        toreturn
    }

    /// Every square id of the board, column by column.
    pub fn get_all_board_square_ids(&self) -> (r: Vec<(u32, u32)>)
        ensures
            r@.len() == 64,
            forall|i: int| 0 <= i < 64 ==> #[trigger] r@[i] == ((i / 8) as u32, (i % 8) as u32),
    {
        crate::chesspoker::maingame::rules::get_all_board_square_ids()
    }

    /// The pieces and squares the card with this id can be played on: every
    /// square for a card that drops or raises a square, nothing for any other
    /// card or an id with no card.
    pub fn get_pieces_and_squares_actable_by_card(&self, cardid: u16) -> (r: (Vec<u32>, Vec<(u8, u8)>))
        ensures
            r.0@.len() == 0,
            (self@.cards.contains_key(cardid) && (self@.cards[cardid].spec_effect() == CardEffect::dropsquare
                || self@.cards[cardid].spec_effect() == CardEffect::raisesquare)) ==> {
                &&& r.1@.len() == 64
                &&& forall|i: int| 0 <= i < 64 ==> #[trigger] r.1@[i] == ((i / 8) as u8, (i % 8) as u8)
            },
            !(self@.cards.contains_key(cardid) && (self@.cards[cardid].spec_effect() == CardEffect::dropsquare
                || self@.cards[cardid].spec_effect() == CardEffect::raisesquare)) ==> r.1@.len() == 0,
    {
        let card: Option<Card> = match self.cards.get(&cardid) {
            Some(c) => Some(*c),
            None => None,
        };
        crate::chesspoker::maingame::rules::get_pieces_and_squares_actable_by_card(card)
    }

    /// The card, if it is in this player's hand.
    pub fn get_card(&self, cardid: u16, playerid: u8) -> (r: Option<Card>)
        requires
            self.wf(),
            playerid == 1 || playerid == 2,
        ensures
            r == if self@.playertocards[playerid].contains(cardid) {
                Some(self@.cards[cardid])
            } else {
                None::<Card>
            },
    {
        proof {
            assert(self@.playertocards.contains_key(playerid));
            assert(self.playertocards@.contains_key(playerid));
            if self@.playertocards[playerid].contains(cardid) {
                assert(self@.cards.contains_key(cardid));
            }
        }
        get_card(&self.playertocards, &self.cards, cardid, playerid)
    }

    /// The player whose hand holds the card.
    pub fn get_owner_of_card(&self, cardid: u16) -> (p: u8)
        requires
            self.wf(),
            exists|q: u8| self@.playertocards.contains_key(q) && #[trigger] self@.playertocards[q].contains(cardid),
        ensures
            p == card_owner(self@, cardid),
            self@.playertocards.contains_key(p) && self@.playertocards[p].contains(cardid),
    {
        proof {
            let q = choose|q: u8| self@.playertocards.contains_key(q) && #[trigger] self@.playertocards[q].contains(cardid);
            assert(self.playertocards@[q]@.contains(cardid));
        }
        let p = get_owner_of_card(&self.playertocards, cardid);
        proof {
            assert(self@.playertocards[p].contains(cardid));
        }
        p
    }

    /// The place of the card in the hand that holds it, counted from 0.
    pub fn get_position_of_card_in_hand(&self, cardid: u16) -> (pos: u32)
        requires
            self.wf(),
            exists|q: u8| self@.playertocards.contains_key(q) && #[trigger] self@.playertocards[q].contains(cardid),
        ensures
            0 <= pos < self@.playertocards[card_owner(self@, cardid)].len(),
            self@.playertocards[card_owner(self@, cardid)][pos as int] == cardid,
            forall|j: int| 0 <= j < pos ==> self@.playertocards[card_owner(self@, cardid)][j] != cardid,
    {
        proof {
            let q = choose|q: u8| self@.playertocards.contains_key(q) && #[trigger] self@.playertocards[q].contains(cardid);
            assert(self.playertocards@[q]@.contains(cardid));
            assert forall|q: u8| #[trigger] self.playertocards@.contains_key(q) implies self.playertocards@[q]@.len() <= u32::MAX by {
                assert(self@.playertocards.contains_key(q));
            }
        }
        let pos = crate::chesspoker::maingame::rules::get_position_of_card_in_hand(&self.playertocards, cardid);
        proof {
            let q = choose|q: u8|
                #[trigger] self.playertocards@.contains_key(q) && 0 <= pos < self.playertocards@[q]@.len()
                    && self.playertocards@[q]@[pos as int] == cardid && forall|j: int| 0 <= j < pos ==> self.playertocards@[q]@[j] != cardid;
            assert(self@.playertocards[q].contains(cardid));
            assert(q == card_owner(self@, cardid));
        }
        pos
    }

    /// The cards of the card game going on, if any: player 1's hand, the
    /// river, player 2's hand.
    pub fn get_cards_in_game(&self) -> (r: Option<(Vec<Card>, Vec<Card>, Vec<Card>)>)
        requires
            self.wf(),
        ensures
            r matches Some(t) <==> self@.cardgame is Some,
            r matches Some(t) ==> t.0@ == self@.cardgame->0.hands[1] && t.1@ == self@.cardgame->0.river && t.2@
                == self@.cardgame->0.hands[2],
    {
        if let Some(cardgame) = &self.cardgame {
            let player1hand = cardgame.get_cards_in_hand(1, 1);
            let river = crate::chesspoker::maingame::copy_cards(&cardgame.river);
            let player2hand = cardgame.get_cards_in_hand(2, 2);
            return Some((player1hand, river, player2hand));
        }
        None
    }

    /// The squares the piece's moves take it to now (see `piece_may_move`),
    /// each once.
    pub fn get_board_squares_reachable_by_piece(&self, pieceid: u32, piecesquares: &HashMap<u32, (u32, u32)>) -> (r: Vec<(u32, u32)>)
        requires
            self.wf(),
            board_ok(self@, piecesquares@),
            self@.piecetypedata.contains_key(pieceid),
        ensures
            r@.no_duplicates(),
            forall|t: (u32, u32)| #[trigger] r@.contains(t) <==> exists|m: BoardMove|
                #[trigger] piece_may_move(self@, piecesquares@, pieceid, m) && move_destination(piecesquares@[pieceid], m)
                    == (t.0 as int, t.1 as int),
    {
        let mut toreturn: Vec<(u32, u32)> = Vec::new();
        let actionsallowed = self.get_slide_and_lift_actions_allowed_for_piece(pieceid, piecesquares);
        let mut i: usize = 0;
        while i < actionsallowed.len()
            invariant
                i <= actionsallowed@.len(),
                self.wf(),
                board_ok(self@, piecesquares@),
                forall|m: BoardMove| #[trigger] actionsallowed@.contains(m) <==> piece_may_move(self@, piecesquares@, pieceid, m),
                toreturn@.no_duplicates(),
                forall|t: (u32, u32)| #[trigger] toreturn@.contains(t) <==> exists|j: int|
                    0 <= j < i && move_destination(piecesquares@[pieceid], #[trigger] actionsallowed@[j]) == (t.0 as int, t.1 as int),
            decreases actionsallowed.len() - i,
        {
            let action = actionsallowed[i];
            proof {
                assert(actionsallowed@.contains(action));
                lemma_allowed_move_on_board(self@, piecesquares@, pieceid, action);
            }
            let square = *piecesquares.get(&pieceid).unwrap();
            let boardsquareid = crate::chesspoker::maingame::boardmoves::get_square_that_action_takes_piece(square, action);
            push_square(&mut toreturn, boardsquareid);
            i = i + 1;
            proof {
                assert forall|t: (u32, u32)| #[trigger] toreturn@.contains(t) <==> exists|j: int|
                    0 <= j < i && move_destination(piecesquares@[pieceid], #[trigger] actionsallowed@[j]) == (t.0 as int, t.1 as int) by {
                    if t == boardsquareid {
                        assert(move_destination(piecesquares@[pieceid], actionsallowed@[i - 1]) == (t.0 as int, t.1 as int));
                    }
                    if exists|j: int| 0 <= j < i && move_destination(piecesquares@[pieceid], #[trigger] actionsallowed@[j]) == (t.0 as int, t.1 as int) {
                        let j = choose|j: int| 0 <= j < i && move_destination(piecesquares@[pieceid], #[trigger] actionsallowed@[j]) == (t.0 as int, t.1 as int);
                        if j == i - 1 {
                            assert(t == boardsquareid);
                        }
                    }
                }
            }
        }
        proof {
            assert forall|t: (u32, u32)| #[trigger] toreturn@.contains(t) <==> exists|m: BoardMove|
                #[trigger] piece_may_move(self@, piecesquares@, pieceid, m) && move_destination(piecesquares@[pieceid], m)
                    == (t.0 as int, t.1 as int) by {
                if toreturn@.contains(t) {
                    let j = choose|j: int| 0 <= j < i && move_destination(piecesquares@[pieceid], #[trigger] actionsallowed@[j]) == (t.0 as int, t.1 as int);
                    assert(actionsallowed@.contains(actionsallowed@[j]));
                }
                if exists|m: BoardMove| #[trigger] piece_may_move(self@, piecesquares@, pieceid, m) && move_destination(piecesquares@[pieceid], m)
                    == (t.0 as int, t.1 as int) {
                    let m = choose|m: BoardMove| #[trigger] piece_may_move(self@, piecesquares@, pieceid, m) && move_destination(piecesquares@[pieceid], m)
                        == (t.0 as int, t.1 as int);
                    assert(actionsallowed@.contains(m));
                    let j = choose|j: int| 0 <= j < actionsallowed@.len() && actionsallowed@[j] == m;
                    assert(move_destination(piecesquares@[pieceid], actionsallowed@[j]) == (t.0 as int, t.1 as int));
                }
            }
        }
        toreturn
    }

    /// The square a move takes the piece to from the square it is on; the
    /// piece must be on a square and the move must end on the board.
    pub fn get_square_that_action_takes_piece(
        &self,
        pieceid: u32,
        pieceaction: BoardMove,
        piecesquares: &HashMap<u32, (u32, u32)>,
    ) -> (r: (u32, u32))
        requires
            board_ok(self@, piecesquares@),
            piecesquares@.contains_key(pieceid),
            on_board(move_destination(piecesquares@[pieceid], pieceaction)),
        ensures
            (r.0 as int, r.1 as int) == move_destination(piecesquares@[pieceid], pieceaction),
    {
        let boardsquareid = *piecesquares.get(&pieceid).unwrap();
        crate::chesspoker::maingame::boardmoves::get_square_that_action_takes_piece(boardsquareid, pieceaction)
    }

    /// Every piece can be flicked.
    pub fn get_if_piece_can_be_flicked(&self, pieceid: u32) -> (b: bool)
        ensures
            b,
    {
        true
    }

    /// A new game between players 1 and 2 (see `is_new_game`).
    pub fn new_two_player() -> (g: MainGame)
        ensures
            g.wf(),
            is_new_game(g@),
    {
        let mut toreturn = MainGame {
            totalplayers: 0,
            totalpieces: 0,
            totalcards: 0,
            players: HashSet::new(),
            playertopiece: HashMap::new(),
            playertodirection: HashMap::new(),
            piecetypedata: HashMap::new(),
            cards: HashMap::new(),
            playertocards: HashMap::new(),
            turnmanager: TurnManager::new_two_player(1, 2),
            cardgame: None,
            queuedinputs: HashMap::new(),
        };
        proof {
            assert(toreturn@.playertopiece =~= Map::<u8, Set<u32>>::empty());
            assert(toreturn@.playertocards =~= Map::<u8, Seq<u16>>::empty());
        }
        toreturn.add_player();
        let ghost a1 = toreturn@;
        toreturn.add_player();
        proof {
            assert forall|c: u16| c < 8 implies is_drawn_card(#[trigger] toreturn@.cards[c]) by {
                if c < 4 {
                    assert(a1.cards.contains_key(c));
                }
            }
        }
        toreturn.queuedinputs.insert(1, None);
        toreturn.queuedinputs.insert(2, None);
        proof {
            assert(toreturn@.playertopiece =~= map![1u8 => Set::<u32>::empty(), 2u8 => Set::<u32>::empty()]);
        }
        toreturn.initialize_pieces();
        toreturn.start_poker_game(1, 2);
        proof {
            let v = toreturn@;
            assert(v.players =~= set![1u8, 2u8]);
            assert(v.playertodirection =~= map![1u8 => 0u8, 2u8 => 4u8]);
            assert(v.queuedinputs =~= map![1u8 => None::<PlayerInput>, 2u8 => None::<PlayerInput>]);
            assert(v.cards.dom() =~= Set::new(|c: u16| c < 8));
            assert(v.playertocards =~= map![1u8 => seq![0u16, 1u16, 2u16, 3u16], 2u8 => seq![4u16, 5u16, 6u16, 7u16]]);
            assert(v.playertopiece.dom() =~= set![1u8, 2u8]);
            assert(v.playertocards.dom() =~= set![1u8, 2u8]);
            assert(v.queuedinputs.dom() =~= set![1u8, 2u8]);
            let g = v.cardgame->0;
            assert(g.hands.dom() =~= set![1u8, 2u8]);
            assert forall|k: u32| #[trigger] v.piecetypedata.contains_key(k) implies exists|p: u8|
                v.playertopiece.contains_key(p) && #[trigger] v.playertopiece[p].contains(k) by {
                lemma_layout_owners();
                let p = initial_layout()[k as int].0;
                assert(v.playertopiece[p].contains(k));
            }
            assert forall|p: u8, c: u16| #[trigger] v.playertocards[p].contains(c) && v.playertocards.contains_key(p)
                implies v.cards.contains_key(c) by {
                let j = choose|j: int| 0 <= j < v.playertocards[p].len() && v.playertocards[p][j] == c;
            }
            assert forall|p: u8, q: u8, c: u16|
                v.playertocards.contains_key(p) && v.playertocards.contains_key(q) && #[trigger] v.playertocards[p].contains(c)
                    && #[trigger] v.playertocards[q].contains(c) implies p == q by {
                let j = choose|j: int| 0 <= j < v.playertocards[p].len() && v.playertocards[p][j] == c;
                let l = choose|l: int| 0 <= l < v.playertocards[q].len() && v.playertocards[q][l] == c;
            }
        }
        toreturn
    }

    /// Adds the next player: player 1 faces direction 0, player 2 direction
    /// 4; the player owns no pieces yet and gets four new cards.
    fn add_player(&mut self)
        requires
            old(self).totalplayers < 2,
            old(self).totalcards as int == 4 * old(self).totalplayers,
        ensures
            final(self)@.totalplayers == old(self)@.totalplayers + 1,
            final(self)@.totalcards == old(self)@.totalcards + 4,
            final(self)@.players == old(self)@.players.insert((old(self)@.totalplayers + 1) as u8),
            final(self)@.playertodirection == old(self)@.playertodirection.insert(
                (old(self)@.totalplayers + 1) as u8,
                if old(self)@.totalplayers == 0 { 0u8 } else { 4u8 },
            ),
            final(self)@.playertopiece == old(self)@.playertopiece.insert(
                (old(self)@.totalplayers + 1) as u8,
                Set::<u32>::empty(),
            ),
            final(self)@.playertocards == old(self)@.playertocards.insert(
                (old(self)@.totalplayers + 1) as u8,
                seq![
                    old(self)@.totalcards,
                    (old(self)@.totalcards + 1) as u16,
                    (old(self)@.totalcards + 2) as u16,
                    (old(self)@.totalcards + 3) as u16,
                ],
            ),
            final(self)@.cards.dom() == old(self)@.cards.dom() + Set::new(
                |c: u16| old(self)@.totalcards <= c < old(self)@.totalcards + 4,
            ),
            forall|c: u16| #[trigger] old(self)@.cards.contains_key(c) && c < old(self)@.totalcards
                ==> final(self)@.cards[c] == old(self)@.cards[c],
            forall|c: u16|
                old(self)@.totalcards <= c < old(self)@.totalcards + 4 ==> is_drawn_card(#[trigger] final(self)@.cards[c]),
            final(self)@.totalpieces == old(self)@.totalpieces,
            final(self)@.piecetypedata == old(self)@.piecetypedata,
            final(self)@.queuedinputs == old(self)@.queuedinputs,
            final(self).turnmanager == old(self).turnmanager,
            final(self).cardgame == old(self).cardgame,
    {
        let currentplayer: u8 = self.totalplayers + 1;
        self.players.insert(currentplayer);
        if currentplayer == 1 {
            self.playertodirection.insert(1, 0);
        } else {
            self.playertodirection.insert(2, 4);
        }
        self.playertopiece.insert(currentplayer, HashSet::new());
        self.playertocards.insert(currentplayer, Vec::new());
        let ghost mid = self@;
        proof {
            assert(mid.playertopiece =~= old(self)@.playertopiece.insert(currentplayer, Set::<u32>::empty()));
            assert(mid.playertocards =~= old(self)@.playertocards.insert(currentplayer, Seq::<u16>::empty()));
        }
        self.give_new_random_card(currentplayer);
        self.give_new_random_card(currentplayer);
        self.give_new_random_card(currentplayer);
        self.give_new_random_card(currentplayer);
        self.totalplayers = self.totalplayers + 1;
        proof {
            let tc = old(self)@.totalcards;
            assert(Seq::<u16>::empty().push(tc).push((tc + 1) as u16).push((tc + 2) as u16).push((tc + 3) as u16)
                =~= seq![tc, (tc + 1) as u16, (tc + 2) as u16, (tc + 3) as u16]);
            assert(self@.playertocards =~= old(self)@.playertocards.insert(
                currentplayer,
                seq![tc, (tc + 1) as u16, (tc + 2) as u16, (tc + 3) as u16],
            ));
            assert(self@.cards.dom() =~= old(self)@.cards.dom() + Set::new(|c: u16| tc <= c < tc + 4));
        }
    }

    /// Adds a piece for the player, with the next piece id, moving as an
    /// unmoved pawn; gives its id.
    fn add_piece(&mut self, playerid: u8) -> (id: u32)
        requires
            old(self)@.playertopiece.contains_key(playerid),
            old(self).totalpieces < u32::MAX,
        ensures
            id == old(self)@.totalpieces,
            final(self)@ == (MainGameView {
                totalpieces: (old(self)@.totalpieces + 1) as u32,
                piecetypedata: old(self)@.piecetypedata.insert(id, final(self)@.piecetypedata[id]),
                playertopiece: old(self)@.playertopiece.insert(playerid, old(self)@.playertopiece[playerid].insert(id)),
                ..old(self)@
            }),
            kind_moves(final(self)@.piecetypedata[id], 1),
            final(self).turnmanager == old(self).turnmanager,
            final(self).cardgame == old(self).cardgame,
    {
        let pieceid = self.totalpieces;
        self.piecetypedata.insert(pieceid, PieceTypeData::new());
        let mut owned = self.playertopiece.remove(&playerid).unwrap();
        owned.insert(pieceid);
        self.playertopiece.insert(playerid, owned);
        self.totalpieces = self.totalpieces + 1;
        proof {
            assert(self@.playertopiece =~= old(self)@.playertopiece.insert(
                playerid,
                old(self)@.playertopiece[playerid].insert(pieceid),
            ));
            assert(self@.playertocards =~= old(self)@.playertocards);
        }
        pieceid
    }

    /// Gives a piece the moves of the kind with this number (see
    /// `piece_type_set`).
    fn set_piece_type(&mut self, pieceid: u32, typeid: u32)
        requires
            old(self)@.piecetypedata.contains_key(pieceid),
        ensures
            final(self)@ == (MainGameView {
                piecetypedata: old(self)@.piecetypedata.insert(pieceid, final(self)@.piecetypedata[pieceid]),
                ..old(self)@
            }),
            piece_type_set(old(self)@.piecetypedata[pieceid], final(self)@.piecetypedata[pieceid], typeid),
            final(self).turnmanager == old(self).turnmanager,
            final(self).cardgame == old(self).cardgame,
    {
        let mut piecetypedata = self.piecetypedata.remove(&pieceid).unwrap();
        set_piece_type(&mut piecetypedata, typeid);
        self.piecetypedata.insert(pieceid, piecetypedata);
        proof {
            assert(self@.piecetypedata =~= old(self)@.piecetypedata.insert(pieceid, piecetypedata));
            assert(self@.playertocards =~= old(self)@.playertocards);
            assert(self@.playertopiece =~= old(self)@.playertopiece);
        }
    }

    /// Makes the pieces of a new game, in the order of `initial_layout`, each
    /// with the moves of its kind.
    fn initialize_pieces(&mut self)
        requires
            old(self)@.totalpieces == 0,
            old(self)@.piecetypedata == Map::<u32, PieceTypeData>::empty(),
            old(self)@.playertopiece == map![1u8 => Set::<u32>::empty(), 2u8 => Set::<u32>::empty()],
        ensures
            final(self)@ == (MainGameView {
                totalpieces: 32,
                playertopiece: map![1u8 => initial_pieces_of(1), 2u8 => initial_pieces_of(2)],
                piecetypedata: final(self)@.piecetypedata,
                ..old(self)@
            }),
            final(self)@.piecetypedata.dom() == Set::new(|k: u32| k < 32),
            forall|k: u32| k < 32 ==> kind_moves(#[trigger] final(self)@.piecetypedata[k], initial_layout()[k as int].2),
            final(self).turnmanager == old(self).turnmanager,
            final(self).cardgame == old(self).cardgame,
    {
        let layout = crate::chesspoker::maingame::rules::initialize_pieces();
        proof {
            lemma_layout_owners();
            assert(Set::new(|k: u32| k < 0usize && initial_layout()[k as int].0 == 1) =~= Set::<u32>::empty());
            assert(Set::new(|k: u32| k < 0usize && initial_layout()[k as int].0 == 2) =~= Set::<u32>::empty());
            assert(Set::new(|k: u32| k < 0usize) =~= Set::<u32>::empty());
        }
        let mut i: usize = 0;
        while i < layout.len()
            invariant
                layout@ == initial_layout(),
                layout@.len() == 32,
                forall|j: int| 0 <= j < 32 ==> (#[trigger] initial_layout()[j]).0 == 1 || initial_layout()[j].0 == 2,
                i <= 32,
                self@ == (MainGameView {
                    totalpieces: i as u32,
                    playertopiece: map![
                        1u8 => Set::new(|k: u32| k < i && initial_layout()[k as int].0 == 1),
                        2u8 => Set::new(|k: u32| k < i && initial_layout()[k as int].0 == 2),
                    ],
                    piecetypedata: self@.piecetypedata,
                    ..old(self)@
                }),
                self@.piecetypedata.dom() == Set::new(|k: u32| k < i),
                forall|k: u32| k < i ==> kind_moves(#[trigger] self@.piecetypedata[k], initial_layout()[k as int].2),
                self.turnmanager == old(self).turnmanager,
                self.cardgame == old(self).cardgame,
            decreases 32 - i,
        {
            let (owner, _position, kind) = layout[i];
            let ghost before = self@;
            let id = self.add_piece(owner);
            let ghost fresh = self@.piecetypedata[id];
            self.set_piece_type(id, kind);
            i = i + 1;
            proof {
                assert(id == (i - 1) as u32);
                assert(self@.piecetypedata =~= before.piecetypedata.insert(id, self@.piecetypedata[id]));
                assert(self@.piecetypedata.dom() =~= Set::new(|k: u32| k < i));
                assert forall|k: u32| k < i implies kind_moves(#[trigger] self@.piecetypedata[k], initial_layout()[k as int].2) by {
                    if k != id {
                        assert(self@.piecetypedata[k] == before.piecetypedata[k]);
                    }
                }
                let s1 = Set::new(|k: u32| k < i && initial_layout()[k as int].0 == 1);
                let s2 = Set::new(|k: u32| k < i && initial_layout()[k as int].0 == 2);
                assert(initial_layout()[id as int].0 == owner);
                assert(s1 =~= if owner == 1 { before.playertopiece[1u8].insert(id) } else { before.playertopiece[1u8] });
                assert(s2 =~= if owner == 2 { before.playertopiece[2u8].insert(id) } else { before.playertopiece[2u8] });
                assert(self@.playertopiece =~= map![
                    1u8 => Set::new(|k: u32| k < i && initial_layout()[k as int].0 == 1),
                    2u8 => Set::new(|k: u32| k < i && initial_layout()[k as int].0 == 2),
                ]);
            }
        }
        proof {
            assert(Set::new(|k: u32| k < i && initial_layout()[k as int].0 == 1) =~= initial_pieces_of(1));
            assert(Set::new(|k: u32| k < i && initial_layout()[k as int].0 == 2) =~= initial_pieces_of(2));
        }
    }

    /// Starts a poker game between the two players on a river of five new
    /// cards.
    fn start_poker_game(&mut self, player1: u8, player2: u8)
        ensures
            final(self)@ == (MainGameView { cardgame: final(self)@.cardgame, ..old(self)@ }),
            final(self).turnmanager == old(self).turnmanager,
            final(self).cardgame matches Some(g) && g.wf() && {
                &&& g@.hands == map![1u8 => Seq::<Card>::empty(), 2u8 => Seq::<Card>::empty()]
                &&& g@.river.len() == 5
                &&& forall|i: int| 0 <= i < 5 ==> is_drawn_card(#[trigger] g@.river[i])
                &&& g@.revealedriver == 3
                &&& g@.passed == map![1u8 => false, 2u8 => false]
                &&& !g@.blackjack && !g@.ended
            },
    {
        let mut river: Vec<Card> = Vec::new();
        let mut x: usize = 0;
        while x < 5
            invariant
                x <= 5,
                river@.len() == x,
                forall|i: int| 0 <= i < x ==> is_drawn_card(#[trigger] river@[i]),
            decreases 5 - x,
        {
            river.push(Card::new_random_card());
            x = x + 1;
        }
        self.cardgame = Some(CardGame::new_poker(river));
        proof {
            assert(self@.playertocards =~= old(self)@.playertocards);
            assert(self@.playertopiece =~= old(self)@.playertopiece);
        }
    }

    /// Gives the player a new card from a draw, with the next card id.
    fn give_new_random_card(&mut self, playerid: u8)
        requires
            old(self)@.playertocards.contains_key(playerid),
            old(self).totalcards < u16::MAX,
        ensures
            final(self)@ == (MainGameView {
                totalcards: (old(self)@.totalcards + 1) as u16,
                cards: old(self)@.cards.insert(old(self)@.totalcards, final(self)@.cards[old(self)@.totalcards]),
                playertocards: old(self)@.playertocards.insert(
                    playerid,
                    old(self)@.playertocards[playerid].push(old(self)@.totalcards),
                ),
                ..old(self)@
            }),
            is_drawn_card(final(self)@.cards[old(self)@.totalcards]),
            final(self).turnmanager == old(self).turnmanager,
            final(self).cardgame == old(self).cardgame,
    {
        let cardid = self.totalcards;
        self.totalcards = self.totalcards + 1;
        let thecard = Card::new_random_card();
        self.cards.insert(cardid, thecard);
        let mut hand = self.playertocards.remove(&playerid).unwrap();
        hand.push(cardid);
        self.playertocards.insert(playerid, hand);
        proof {
            assert(self@.playertocards =~= old(self)@.playertocards.insert(
                playerid,
                old(self)@.playertocards[playerid].push(old(self)@.totalcards),
            ));
            assert(self@.playertopiece =~= old(self)@.playertopiece);
        }
    }
}

} // verus!
