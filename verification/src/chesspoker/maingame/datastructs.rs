use vstd::prelude::*;
use std::collections::HashSet;
use crate::turnqueue::{
    active_set, base_queue, copy_queue, decrement_entries, has_active, keep_live_entries, lemma_queue_at,
    lemma_step, lemma_turn_end, live_entries, phase_of, player_at, queue_active_players, queue_at,
    queue_has_active,
};

verus! {

/// The face value of a card.
#[allow(non_camel_case_types)]
#[derive(Clone, Copy, Debug, PartialEq, Eq, Hash, Structural)]
pub enum CardValue {
    ace,
    two,
    three,
    four,
    five,
    six,
    seven,
    eight,
    nine,
    ten,
    jack,
    queen,
    king,
}

/// What playing a card does.
#[allow(non_camel_case_types)]
#[derive(Clone, Copy, Debug, PartialEq, Eq, Hash, Structural)]
pub enum CardEffect {
    /// Starts a blackjack game with this card as the first card.
    blackjackgame,
    /// Starts a poker game with this card as the first card.
    pokergame,
    /// Removes a square from the board.
    dropsquare,
    /// Raises a square so that no piece can pass it.
    raisesquare,
}

/// The suit of a card.
#[allow(non_camel_case_types)]
#[derive(Clone, Copy, Debug, PartialEq, Eq, Hash, Structural)]
pub enum CardSuit {
    diamonds,
    clubs,
    hearts,
    spades,
}

/// A playing card with an effect, which may be hidden (unknown).
#[derive(Clone, Copy, Debug, PartialEq, Eq, Hash, Structural)]
pub struct Card {
    value: CardValue,
    suit: CardSuit,
    pub effect: CardEffect,
    isunknown: bool,
}

/// The number of a face value: ace 1, two 2, up to king 13.
pub open spec fn value_number(v: CardValue) -> u16 {
    match v {
        CardValue::ace => 1,
        CardValue::two => 2,
        CardValue::three => 3,
        CardValue::four => 4,
        CardValue::five => 5,
        CardValue::six => 6,
        CardValue::seven => 7,
        CardValue::eight => 8,
        CardValue::nine => 9,
        CardValue::ten => 10,
        CardValue::jack => 11,
        CardValue::queen => 12,
        CardValue::king => 13,
    }
}

/// The blackjack value of a face value other than the ace: its number, ten for
/// the face cards.
pub open spec fn blackjack_points(v: CardValue) -> u16 {
    if value_number(v) > 10 { 10 } else { value_number(v) }
}

impl Card {
    pub closed spec fn spec_value(self) -> CardValue {
        self.value
    }

    pub closed spec fn spec_suit(self) -> CardSuit {
        self.suit
    }

    pub closed spec fn spec_effect(self) -> CardEffect {
        self.effect
    }

    pub closed spec fn spec_isunknown(self) -> bool {
        self.isunknown
    }

    /// A known card with these parts.
    pub fn new(value: CardValue, suit: CardSuit, effect: CardEffect) -> (c: Card)
        ensures
            c.spec_value() == value,
            c.spec_suit() == suit,
            c.spec_effect() == effect,
            !c.spec_isunknown(),
    {
        Card { value, suit, effect, isunknown: false }
    }

    /// What playing the card does.
    pub fn get_effect(&self) -> (e: CardEffect)
        ensures
            e == self.spec_effect(),
    {
        self.effect
    }

    pub fn is_ace(&self) -> (b: bool)
        ensures
            b == (self.spec_value() == CardValue::ace),
    {
        match self.value {
            CardValue::ace => true,
            _ => false,
        }
    }

    /// The blackjack value; an ace has none, because it may count 1 or 11.
    pub fn blackjackvalue(&self) -> (v: u16)
        requires
            self.spec_value() != CardValue::ace,
        ensures
            v == blackjack_points(self.spec_value()),
            2 <= v <= 10,
    {
        match self.value {
            CardValue::two => 2,
            CardValue::three => 3,
            CardValue::four => 4,
            CardValue::five => 5,
            CardValue::six => 6,
            CardValue::seven => 7,
            CardValue::eight => 8,
            CardValue::nine => 9,
            CardValue::ten => 10,
            CardValue::jack => 10,
            CardValue::queen => 10,
            CardValue::king => 10,
            CardValue::ace => 1,
        }
    }

    /// The number of the face value, 1 to 13.
    pub fn numbervalue(&self) -> (v: u16)
        ensures
            v == value_number(self.spec_value()),
            1 <= v <= 13,
    {
        match self.value {
            CardValue::two => 2,
            CardValue::three => 3,
            CardValue::four => 4,
            CardValue::five => 5,
            CardValue::six => 6,
            CardValue::seven => 7,
            CardValue::eight => 8,
            CardValue::nine => 9,
            CardValue::ten => 10,
            CardValue::jack => 11,
            CardValue::queen => 12,
            CardValue::king => 13,
            CardValue::ace => 1,
        }
    }

    /// The number of the suit: diamonds 1, clubs 2, hearts 3, spades 4.
    pub fn suitvalue(&self) -> (v: u16)
        ensures
            v == match self.spec_suit() {
                CardSuit::diamonds => 1u16,
                CardSuit::clubs => 2u16,
                CardSuit::hearts => 3u16,
                CardSuit::spades => 4u16,
            },
    {
        match self.suit {
            CardSuit::diamonds => 1,
            CardSuit::clubs => 2,
            CardSuit::hearts => 3,
            CardSuit::spades => 4,
        }
    }

    /// The card every draw gives: the ace of spades, which drops a square.
    pub fn new_random_card() -> (c: Card)
        ensures
            c.spec_value() == CardValue::ace,
            c.spec_suit() == CardSuit::spades,
            c.spec_effect() == CardEffect::dropsquare,
            !c.spec_isunknown(),
    {
        Card { value: CardValue::ace, suit: CardSuit::spades, effect: CardEffect::dropsquare, isunknown: false }
    }

    /// The card shown in place of one that is not yet revealed.
    pub closed spec fn hidden() -> Card {
        Card { value: CardValue::ace, suit: CardSuit::spades, effect: CardEffect::raisesquare, isunknown: true }
    }

    /// A hidden card, as shown in place of one that is not yet revealed.
    pub fn new_unknown_card() -> (c: Card)
        ensures
            c == Card::hidden(),
            c.spec_value() == CardValue::ace,
            c.spec_suit() == CardSuit::spades,
            c.spec_effect() == CardEffect::raisesquare,
            c.spec_isunknown(),
    {
        Card { value: CardValue::ace, suit: CardSuit::spades, effect: CardEffect::raisesquare, isunknown: true }
    }
}

} // verus!

verus! {

/// A slide: direction (eighths of a turn from the player's forward), greatest
/// distance, whether it must capture, whether it may capture.
pub type SlideAction = (u8, u8, bool, bool);

/// A lift-and-move: the relative square, whether it must capture, whether it
/// may capture.
pub type LiftAction = ((i8, i8), bool, bool);

/// The cosine of `d` eighths of a turn, rounded to a whole number.
pub open spec fn rounded_cos(d: u8) -> int {
    let m = d % 8;
    if m == 0 || m == 1 || m == 7 {
        1
    } else if m == 3 || m == 4 || m == 5 {
        -1
    } else {
        0
    }
}

/// The sine of `d` eighths of a turn, rounded to a whole number.
pub open spec fn rounded_sin(d: u8) -> int {
    let m = d % 8;
    if m == 1 || m == 2 || m == 3 {
        1
    } else if m == 5 || m == 6 || m == 7 {
        -1
    } else {
        0
    }
}

/// A slide direction of a player facing `playerdirection`, seen from the board.
pub open spec fn objective_slide(playerdirection: u8, slidedirection: u8) -> u8 {
    ((slidedirection + playerdirection) % 8) as u8
}

/// A relative position of a player facing `playerdirection`, seen from the
/// board: turned by the rounded rotation, if it still fits in `i8`.
pub open spec fn objective_lift(playerdirection: u8, relativepos: (i8, i8)) -> Option<(i8, i8)> {
    let c = rounded_cos(playerdirection);
    let s = rounded_sin(playerdirection);
    let x = relativepos.0 * c - relativepos.1 * s;
    let y = relativepos.0 * s + relativepos.1 * c;
    if -128 <= x <= 127 && -128 <= y <= 127 {
        Some((x as i8, y as i8))
    } else {
        None
    }
}

/// The step on the board of each of the eight slide directions, from forward
/// `(0, 1)` turning clockwise; `(0, 0)` for any other id.
pub open spec fn slide_step(slideid: u8) -> (i32, i32) {
    if slideid == 0 { (0i32, 1i32) }
    else if slideid == 1 { (1i32, 1i32) }
    else if slideid == 2 { (1i32, 0i32) }
    else if slideid == 3 { (1i32, -1i32) }
    else if slideid == 4 { (0i32, -1i32) }
    else if slideid == 5 { (-1i32, -1i32) }
    else if slideid == 6 { (-1i32, 0i32) }
    else if slideid == 7 { (-1i32, 1i32) }
    else { (0i32, 0i32) }
}

/// The slide direction of a player facing `playerdirection`, seen from the board.
pub fn players_perspective_to_objective_perspective_slide(playerdirection: &u8, slidedirection: &u8) -> (r: u8)
    ensures
        r == objective_slide(*playerdirection, *slidedirection),
        r < 8,
{
    let slidedirection = *slidedirection as i32;
    let playerdirection = *playerdirection as i32;
    let toreturn = (slidedirection + playerdirection) % 8;
    toreturn as u8
}

/// The relative position of a player facing `playerdirection`, seen from the
/// board, or `None` if it no longer fits in `i8`. The rotation is by
/// `playerdirection` eighths of a turn, with cosine and sine rounded to whole
/// numbers (a turn by one eighth is `(x - y, x + y)`).
pub fn players_perspective_to_objective_perspective_lift(playerdirection: &u8, relativepos: &(i8, i8)) -> (r: Option<(i8, i8)>)
    ensures
        r == objective_lift(*playerdirection, *relativepos),
{
    let m = *playerdirection % 8;
    let c: i32 = if m == 0 || m == 1 || m == 7 {
        1
    } else if m == 3 || m == 4 || m == 5 {
        -1
    } else {
        0
    };
    let s: i32 = if m == 1 || m == 2 || m == 3 {
        1
    } else if m == 5 || m == 6 || m == 7 {
        -1
    } else {
        0
    };
    let x = relativepos.0 as i32;
    let y = relativepos.1 as i32;
    assert(-128 <= x * c <= 128 && -128 <= y * s <= 128 && -128 <= x * s <= 128 && -128 <= y * c <= 128) by (nonlinear_arith)
        requires
            -128 <= x <= 127,
            -128 <= y <= 127,
            -1 <= c <= 1,
            -1 <= s <= 1,
    ;
    let newx = x * c - y * s;
    let newy = x * s + y * c;
    if -128 <= newx && newx <= 127 && -128 <= newy && newy <= 127 {
        Some((newx as i8, newy as i8))
    } else {
        None
    }
}

/// The slide id of one of the eight steps on the board.
pub fn direction_change_to_slide_id_from_objective_perspective(directionstepchange: (i32, i32)) -> (r: u8)
    requires
        -1 <= directionstepchange.0 <= 1,
        -1 <= directionstepchange.1 <= 1,
        directionstepchange != (0i32, 0i32),
    ensures
        r < 8,
        slide_step(r) == directionstepchange,
{
    let (x, y) = directionstepchange;
    if x == 0 && y == 1 {
        return 0;
    }
    if x == 1 && y == 1 {
        return 1;
    }
    if x == 1 && y == 0 {
        return 2;
    }
    if x == 1 && y == -1 {
        return 3;
    }
    if x == 0 && y == -1 {
        return 4;
    }
    if x == -1 && y == -1 {
        return 5;
    }
    if x == -1 && y == 0 {
        return 6;
    }
    7
}

/// The step on the board of a slide id.
pub fn slide_id_to_direction_change_from_objective_perspective(slideid: u8) -> (r: (i32, i32))
    ensures
        r == slide_step(slideid),
{
    let mut toreturn: (i32, i32) = (0, 0);
    if slideid == 0 {
        toreturn = (0, 1);
    } else if slideid == 1 {
        toreturn = (1, 1);
    } else if slideid == 2 {
        toreturn = (1, 0);
    } else if slideid == 3 {
        toreturn = (1, -1);
    } else if slideid == 4 {
        toreturn = (0, -1);
    } else if slideid == 5 {
        toreturn = (-1, -1);
    } else if slideid == 6 {
        toreturn = (-1, 0);
    } else if slideid == 7 {
        toreturn = (-1, 1);
    }
    toreturn
}

/// Adds `e` to `v` unless it is there already.
fn push_unique_slide(v: &mut Vec<SlideAction>, e: SlideAction)
    ensures
        forall|x: SlideAction| final(v)@.contains(x) <==> (old(v)@.contains(x) || x == e),
        old(v)@.no_duplicates() ==> final(v)@.no_duplicates(),
{
    let mut i: usize = 0;
    while i < v.len()
        invariant
            i <= v.len(),
            forall|j: int| 0 <= j < i ==> v@[j] != e,
        decreases v.len() - i,
    {
        let x = v[i];
        if x.0 == e.0 && x.1 == e.1 && x.2 == e.2 && x.3 == e.3 {
            assert(v@[i as int] == e);
            return;
        }
        i = i + 1;
    }
    v.push(e);
    assert(forall|x: SlideAction| v@.contains(x) <==> (old(v)@.contains(x) || x == e)) by {
        assert(forall|x: SlideAction| old(v)@.contains(x) ==> v@.contains(x)) by {
            assert(forall|j: int| 0 <= j < old(v)@.len() ==> v@[j] == old(v)@[j]);
        }
        assert(v@[v@.len() - 1] == e);
    }
}

/// Adds `e` to `v` unless it is there already.
fn push_unique_lift(v: &mut Vec<LiftAction>, e: LiftAction)
    ensures
        forall|x: LiftAction| final(v)@.contains(x) <==> (old(v)@.contains(x) || x == e),
        old(v)@.no_duplicates() ==> final(v)@.no_duplicates(),
{
    let mut i: usize = 0;
    while i < v.len()
        invariant
            i <= v.len(),
            forall|j: int| 0 <= j < i ==> v@[j] != e,
        decreases v.len() - i,
    {
        let x = v[i];
        if x.0.0 == e.0.0 && x.0.1 == e.0.1 && x.1 == e.1 && x.2 == e.2 {
            assert(v@[i as int] == e);
            return;
        }
        i = i + 1;
    }
    v.push(e);
    assert(forall|x: LiftAction| v@.contains(x) <==> (old(v)@.contains(x) || x == e)) by {
        assert(forall|x: LiftAction| old(v)@.contains(x) ==> v@.contains(x)) by {
            assert(forall|j: int| 0 <= j < old(v)@.len() ==> v@[j] == old(v)@[j]);
        }
        assert(v@[v@.len() - 1] == e);
    }
}

/// The moves a kind of piece is allowed, from its owner's perspective; each
/// move occurs once.
#[derive(Clone, Debug)]
struct AllowedActions {
    slidedirection: Vec<SlideAction>,
    liftandmove: Vec<LiftAction>,
}

/// The slides of each kind of piece.
pub open spec fn unmoved_pawn_slides() -> Seq<SlideAction> {
    seq![(0u8, 2u8, false, false), (1u8, 1u8, true, true), (7u8, 1u8, true, true)]
}

pub open spec fn moved_pawn_slides() -> Seq<SlideAction> {
    seq![(0u8, 1u8, false, false), (1u8, 1u8, true, true), (7u8, 1u8, true, true)]
}

pub open spec fn bishop_slides() -> Seq<SlideAction> {
    seq![(1u8, 7u8, false, true), (3u8, 7u8, false, true), (5u8, 7u8, false, true), (7u8, 7u8, false, true)]
}

pub open spec fn rook_slides() -> Seq<SlideAction> {
    seq![(0u8, 7u8, false, true), (2u8, 7u8, false, true), (4u8, 7u8, false, true), (6u8, 7u8, false, true)]
}

pub open spec fn queen_slides() -> Seq<SlideAction> {
    rook_slides() + bishop_slides()
}

pub open spec fn king_slides() -> Seq<SlideAction> {
    seq![(0u8, 1u8, false, true), (2u8, 1u8, false, true), (4u8, 1u8, false, true), (6u8, 1u8, false, true),
        (1u8, 1u8, false, true), (3u8, 1u8, false, true), (5u8, 1u8, false, true), (7u8, 1u8, false, true)]
}

/// The jumps of a knight.
pub open spec fn knight_lifts() -> Seq<LiftAction> {
    seq![((1i8, 2i8), false, true), ((2i8, 1i8), false, true), ((2i8, -1i8), false, true), ((1i8, -2i8), false, true),
        ((-1i8, -2i8), false, true), ((-2i8, -1i8), false, true), ((-2i8, 1i8), false, true), ((-1i8, 2i8), false, true)]
}

/// Whether an offset is a knight's jump: one square along one axis and two
/// along the other.
pub open spec fn is_knight_jump(p: (i8, i8)) -> bool {
    ||| (p.0 == 1 || p.0 == -1) && (p.1 == 2 || p.1 == -2)
    ||| (p.0 == 2 || p.0 == -2) && (p.1 == 1 || p.1 == -1)
}

/// A knight is given exactly the eight jumps, each once: every lift-and-move
/// of it is a jump one way and two the other, every such jump is among them,
/// and each may capture but need not.
pub proof fn lemma_knight_lifts_are_the_eight_jumps()
    ensures
        knight_lifts().len() == 8,
        forall|i: int| 0 <= i < knight_lifts().len() ==> is_knight_jump(#[trigger] knight_lifts()[i].0),
        forall|i: int| 0 <= i < knight_lifts().len() ==> !(#[trigger] knight_lifts()[i]).1 && knight_lifts()[i].2,
        forall|p: (i8, i8)| #[trigger] is_knight_jump(p) ==> exists|i: int| 0 <= i < knight_lifts().len() && (#[trigger] knight_lifts()[i]).0 == p,
        forall|i: int, j: int| 0 <= i < j < knight_lifts().len() ==> (#[trigger] knight_lifts()[i]).0 != (#[trigger] knight_lifts()[j]).0,
{
    let l = knight_lifts();
    assert(l[0].0 == (1i8, 2i8));
    assert(l[1].0 == (2i8, 1i8));
    assert(l[2].0 == (2i8, -1i8));
    assert(l[3].0 == (1i8, -2i8));
    assert(l[4].0 == (-1i8, -2i8));
    assert(l[5].0 == (-2i8, -1i8));
    assert(l[6].0 == (-2i8, 1i8));
    assert(l[7].0 == (-1i8, 2i8));
    assert forall|p: (i8, i8)| #[trigger] is_knight_jump(p) implies exists|i: int| 0 <= i < l.len() && (#[trigger] l[i]).0 == p by {
        if p == (1i8, 2i8) { assert(l[0].0 == p); }
        else if p == (2i8, 1i8) { assert(l[1].0 == p); }
        else if p == (2i8, -1i8) { assert(l[2].0 == p); }
        else if p == (1i8, -2i8) { assert(l[3].0 == p); }
        else if p == (-1i8, -2i8) { assert(l[4].0 == p); }
        else if p == (-2i8, -1i8) { assert(l[5].0 == p); }
        else if p == (-2i8, 1i8) { assert(l[6].0 == p); }
        else { assert(l[7].0 == p); }
    }
}

impl AllowedActions {
    fn from_parts(slides: Vec<SlideAction>, lifts: Vec<LiftAction>) -> (a: AllowedActions)
        ensures
            a.slidedirection@ == slides@,
            a.liftandmove@ == lifts@,
    {
        AllowedActions { slidedirection: slides, liftandmove: lifts }
    }

    /// A pawn that has not moved: two squares forward, or one diagonally
    /// forward to capture.
    fn get_unmoved_pawn() -> (a: AllowedActions)
        ensures
            a.slidedirection@ == unmoved_pawn_slides(),
            a.liftandmove@ == Seq::<LiftAction>::empty(),
    {
        let slidedirection = vec![(0u8, 2u8, false, false), (1u8, 1u8, true, true), (7u8, 1u8, true, true)];
        AllowedActions { liftandmove: Vec::new(), slidedirection }
    }

    /// A pawn that has moved: one square forward, or one diagonally forward to
    /// capture.
    fn get_moved_pawn() -> (a: AllowedActions)
        ensures
            a.slidedirection@ == moved_pawn_slides(),
            a.liftandmove@ == Seq::<LiftAction>::empty(),
    {
        let slidedirection = vec![(0u8, 1u8, false, false), (1u8, 1u8, true, true), (7u8, 1u8, true, true)];
        AllowedActions { liftandmove: Vec::new(), slidedirection }
    }

    /// A knight: the eight jumps.
    fn get_knight() -> (a: AllowedActions)
        ensures
            a.slidedirection@ == Seq::<SlideAction>::empty(),
            a.liftandmove@ == knight_lifts(),
    {
        let liftandmove = vec![((1i8, 2i8), false, true), ((2i8, 1i8), false, true), ((2i8, -1i8), false, true),
            ((1i8, -2i8), false, true), ((-1i8, -2i8), false, true), ((-2i8, -1i8), false, true),
            ((-2i8, 1i8), false, true), ((-1i8, 2i8), false, true)];
        AllowedActions { liftandmove, slidedirection: Vec::new() }
    }

    /// A bishop: up to seven squares diagonally.
    fn get_bishop() -> (a: AllowedActions)
        ensures
            a.slidedirection@ == bishop_slides(),
            a.liftandmove@ == Seq::<LiftAction>::empty(),
    {
        let slidedirection = vec![(1u8, 7u8, false, true), (3u8, 7u8, false, true), (5u8, 7u8, false, true), (7u8, 7u8, false, true)];
        AllowedActions { liftandmove: Vec::new(), slidedirection }
    }

    /// A rook: up to seven squares orthogonally.
    fn get_rook() -> (a: AllowedActions)
        ensures
            a.slidedirection@ == rook_slides(),
            a.liftandmove@ == Seq::<LiftAction>::empty(),
    {
        let slidedirection = vec![(0u8, 7u8, false, true), (2u8, 7u8, false, true), (4u8, 7u8, false, true), (6u8, 7u8, false, true)];
        AllowedActions { liftandmove: Vec::new(), slidedirection }
    }

    /// A queen: up to seven squares in any of the eight directions.
    fn get_queen() -> (a: AllowedActions)
        ensures
            a.slidedirection@ == queen_slides(),
            a.liftandmove@ == Seq::<LiftAction>::empty(),
    {
        let slidedirection = vec![(0u8, 7u8, false, true), (2u8, 7u8, false, true), (4u8, 7u8, false, true), (6u8, 7u8, false, true),
            (1u8, 7u8, false, true), (3u8, 7u8, false, true), (5u8, 7u8, false, true), (7u8, 7u8, false, true)];
        assert(slidedirection@ =~= queen_slides());
        AllowedActions { liftandmove: Vec::new(), slidedirection }
    }

    /// A king: one square in any of the eight directions.
    fn get_king() -> (a: AllowedActions)
        ensures
            a.slidedirection@ == king_slides(),
            a.liftandmove@ == Seq::<LiftAction>::empty(),
    {
        let slidedirection = vec![(0u8, 1u8, false, true), (2u8, 1u8, false, true), (4u8, 1u8, false, true), (6u8, 1u8, false, true),
            (1u8, 1u8, false, true), (3u8, 1u8, false, true), (5u8, 1u8, false, true), (7u8, 1u8, false, true)];
        AllowedActions { liftandmove: Vec::new(), slidedirection }
    }
}

/// The rules of a piece beyond how it moves: whether it is a king, whether it
/// has acted, whether it may castle; and the moves it is allowed.
#[derive(Clone, Debug)]
pub struct PieceTypeData {
    isking: bool,
    takenaction: bool,
    cancastle: bool,
    allowedactions: AllowedActions,
}

impl PieceTypeData {
    /// The allowed slides, from the owner's perspective.
    pub closed spec fn slides(&self) -> Seq<SlideAction> {
        self.allowedactions.slidedirection@
    }

    /// The allowed lift-and-moves, from the owner's perspective.
    pub closed spec fn lifts(&self) -> Seq<LiftAction> {
        self.allowedactions.liftandmove@
    }

    pub closed spec fn spec_isking(&self) -> bool {
        self.isking
    }

    pub closed spec fn spec_takenaction(&self) -> bool {
        self.takenaction
    }

    pub closed spec fn spec_cancastle(&self) -> bool {
        self.cancastle
    }

    /// A piece that has not acted, moving as an unmoved pawn.
    pub fn new() -> (d: PieceTypeData)
        ensures
            !d.spec_isking(),
            !d.spec_takenaction(),
            !d.spec_cancastle(),
            d.slides() == unmoved_pawn_slides(),
            d.lifts() == Seq::<LiftAction>::empty(),
    {
        PieceTypeData { isking: false, takenaction: false, cancastle: false, allowedactions: AllowedActions::get_unmoved_pawn() }
    }

    /// Moves as a pawn: an unmoved one unless it has acted.
    pub fn set_pawn(&mut self)
        ensures
            final(self).slides() == if old(self).spec_takenaction() { moved_pawn_slides() } else { unmoved_pawn_slides() },
            final(self).lifts() == Seq::<LiftAction>::empty(),
            final(self).spec_isking() == old(self).spec_isking(),
            final(self).spec_takenaction() == old(self).spec_takenaction(),
            final(self).spec_cancastle() == old(self).spec_cancastle(),
    {
        if self.takenaction {
            self.allowedactions = AllowedActions::get_moved_pawn();
        } else {
            self.allowedactions = AllowedActions::get_unmoved_pawn();
        }
    }

    /// Moves as a knight.
    pub fn set_knight(&mut self)
        ensures
            final(self).slides() == Seq::<SlideAction>::empty(),
            final(self).lifts() == knight_lifts(),
            final(self).spec_isking() == old(self).spec_isking(),
            final(self).spec_takenaction() == old(self).spec_takenaction(),
            final(self).spec_cancastle() == old(self).spec_cancastle(),
    {
        self.allowedactions = AllowedActions::get_knight();
    }

    /// Moves as a bishop.
    pub fn set_bishop(&mut self)
        ensures
            final(self).slides() == bishop_slides(),
            final(self).lifts() == Seq::<LiftAction>::empty(),
            final(self).spec_isking() == old(self).spec_isking(),
            final(self).spec_takenaction() == old(self).spec_takenaction(),
            final(self).spec_cancastle() == old(self).spec_cancastle(),
    {
        self.allowedactions = AllowedActions::get_bishop();
    }

    /// Moves as a rook.
    pub fn set_rook(&mut self)
        ensures
            final(self).slides() == rook_slides(),
            final(self).lifts() == Seq::<LiftAction>::empty(),
            final(self).spec_isking() == old(self).spec_isking(),
            final(self).spec_takenaction() == old(self).spec_takenaction(),
            final(self).spec_cancastle() == old(self).spec_cancastle(),
    {
        self.allowedactions = AllowedActions::get_rook();
    }

    /// Moves as a queen.
    pub fn set_queen(&mut self)
        ensures
            final(self).slides() == queen_slides(),
            final(self).lifts() == Seq::<LiftAction>::empty(),
            final(self).spec_isking() == old(self).spec_isking(),
            final(self).spec_takenaction() == old(self).spec_takenaction(),
            final(self).spec_cancastle() == old(self).spec_cancastle(),
    {
        self.allowedactions = AllowedActions::get_queen();
    }

    /// Moves as a king.
    pub fn set_king(&mut self)
        ensures
            final(self).slides() == king_slides(),
            final(self).lifts() == Seq::<LiftAction>::empty(),
            final(self).spec_isking() == old(self).spec_isking(),
            final(self).spec_takenaction() == old(self).spec_takenaction(),
            final(self).spec_cancastle() == old(self).spec_cancastle(),
    {
        self.allowedactions = AllowedActions::get_king();
    }

    /// The allowed slides seen from the board by an owner facing
    /// `ownerdirection`, each once.
    pub fn get_allowed_slide_actions(&self, ownerdirection: &u8) -> (r: Vec<SlideAction>)
        ensures
            r@.no_duplicates(),
            forall|e: SlideAction| r@.contains(e) <==> exists|i: int| 0 <= i < self.slides().len() && e == (
                objective_slide(*ownerdirection, (#[trigger] self.slides()[i]).0), self.slides()[i].1, self.slides()[i].2,
                self.slides()[i].3),
    {
        let temp = &self.allowedactions.slidedirection;
        let mut toreturn: Vec<SlideAction> = Vec::new();
        let mut i: usize = 0;
        while i < temp.len()
            invariant
                i <= temp.len(),
                temp@ == self.slides(),
                toreturn@.no_duplicates(),
                forall|e: SlideAction| toreturn@.contains(e) <==> exists|j: int| 0 <= j < i && e == (
                    objective_slide(*ownerdirection, (#[trigger] temp@[j]).0), temp@[j].1, temp@[j].2, temp@[j].3),
            decreases temp.len() - i,
        {
            let (direction, a, b, c) = temp[i];
            let newdirection = players_perspective_to_objective_perspective_slide(ownerdirection, &direction);
            push_unique_slide(&mut toreturn, (newdirection, a, b, c));
            i = i + 1;
            assert(forall|e: SlideAction| toreturn@.contains(e) <==> exists|j: int| 0 <= j < i && e == (
                objective_slide(*ownerdirection, (#[trigger] temp@[j]).0), temp@[j].1, temp@[j].2, temp@[j].3)) by {
                assert(temp@[i - 1] == (direction, a, b, c));
            }
        }
        toreturn
    }

    /// The allowed lift-and-moves seen from the board by an owner facing
    /// `ownerdirection`, each once; a position that no longer fits in `i8` is left out.
    pub fn get_allowed_lift_and_move(&self, ownerdirection: &u8) -> (r: Vec<LiftAction>)
        ensures
            r@.no_duplicates(),
            forall|e: LiftAction| r@.contains(e) <==> exists|i: int| 0 <= i < self.lifts().len() && objective_lift(
                *ownerdirection, (#[trigger] self.lifts()[i]).0) == Some(e.0) && e.1 == self.lifts()[i].1 && e.2
                == self.lifts()[i].2,
    {
        let temp = &self.allowedactions.liftandmove;
        let mut toreturn: Vec<LiftAction> = Vec::new();
        let mut i: usize = 0;
        while i < temp.len()
            invariant
                i <= temp.len(),
                temp@ == self.lifts(),
                toreturn@.no_duplicates(),
                forall|e: LiftAction| toreturn@.contains(e) <==> exists|j: int| 0 <= j < i && objective_lift(
                    *ownerdirection, (#[trigger] temp@[j]).0) == Some(e.0) && e.1 == temp@[j].1 && e.2 == temp@[j].2,
            decreases temp.len() - i,
        {
            let (relativepos, a, b) = temp[i];
            let ghost before = toreturn@;
            if let Some(newrelativepos) = players_perspective_to_objective_perspective_lift(ownerdirection, &relativepos) {
                push_unique_lift(&mut toreturn, (newrelativepos, a, b));
            }
            i = i + 1;
            assert(forall|e: LiftAction| toreturn@.contains(e) <==> exists|j: int| 0 <= j < i && objective_lift(
                *ownerdirection, (#[trigger] temp@[j]).0) == Some(e.0) && e.1 == temp@[j].1 && e.2 == temp@[j].2) by {
                assert(temp@[i - 1] == (relativepos, a, b));
            }
        }
        toreturn
    }

    /// Castling is not decided here: nothing happens.
    pub fn get_if_castle_allowed(&self) {
    }
}

} // verus!

verus! {

/// How long the first player's turn lasts, in ticks.
pub const FIRST_TURN_TICKS: u32 = 10;

/// How long the second player's turn lasts, in ticks.
pub const SECOND_TURN_TICKS: u32 = 30;

/// Whether `value` lies in one of the half-open ranges `[start, end)`.
pub open spec fn in_some_range(ranges: Seq<(u32, u32)>, value: u32) -> bool {
    exists|i: int| 0 <= i < ranges.len() && (#[trigger] ranges[i]).0 <= value && value < ranges[i].1
}

/// Whether `value` lies in one of the half-open ranges `[start, end)`.
fn is_in_range(ranges: Vec<(u32, u32)>, value: u32) -> (b: bool)
    ensures
        b == in_some_range(ranges@, value),
{
    let mut i: usize = 0;
    while i < ranges.len()
        invariant
            i <= ranges.len(),
            forall|j: int| 0 <= j < i ==> !((#[trigger] ranges@[j]).0 <= value && value < ranges@[j].1),
        decreases ranges.len() - i,
    {
        let (currangestart, currangeend) = ranges[i];
        if value >= currangestart {
            if value < currangeend {
                assert(ranges@[i as int].0 <= value);
                return true;
            }
        }
        i = i + 1;
    }
    false
}

/// The turn cycle as plain values: the two players and how far into the cycle
/// of both turns it is.
pub struct TurnCycle {
    pub player1: u8,
    pub player2: u8,
    pub phase: int,
}

impl TurnCycle {
    /// The player on turn.
    pub open spec fn current_player(self) -> u8 {
        player_at(self.player1, self.player2, FIRST_TURN_TICKS, self.phase)
    }

    /// One tick later.
    pub open spec fn ticked(self) -> TurnCycle {
        if self.phase + 1 < FIRST_TURN_TICKS + SECOND_TURN_TICKS {
            TurnCycle { phase: self.phase + 1, ..self }
        } else {
            TurnCycle { phase: 0, ..self }
        }
    }

    /// After a player acts: the turn of the player on turn ends at once; a
    /// player not on turn changes nothing.
    pub open spec fn after_action(self, playerid: u8) -> TurnCycle {
        if playerid == self.current_player() {
            if self.phase < FIRST_TURN_TICKS {
                TurnCycle { phase: FIRST_TURN_TICKS as int, ..self }
            } else {
                TurnCycle { phase: 0, ..self }
            }
        } else {
            self
        }
    }
}

/// Decides whose turn it is: player 1 for 10 ticks, then player 2 for 30,
/// over and over.
#[derive(Clone, Debug)]
pub struct TurnManager {
    /// Entries `(player, ticks until the turn, ticks left in the turn)`.
    queuedturns: Vec<(u8, u32, u32)>,
    /// The queue that starts each cycle of turns.
    basequeue: Vec<(u8, u32, u32)>,
}

impl View for TurnManager {
    type V = TurnCycle;

    closed spec fn view(&self) -> TurnCycle {
        TurnCycle {
            player1: self.basequeue@[0].0,
            player2: self.basequeue@[1].0,
            phase: phase_of(self.queuedturns@, FIRST_TURN_TICKS, SECOND_TURN_TICKS),
        }
    }
}

impl TurnManager {
    pub closed spec fn base_ok(&self) -> bool {
        &&& self.basequeue@.len() == 2
        &&& self.basequeue@ == base_queue(self@.player1, self@.player2, FIRST_TURN_TICKS, SECOND_TURN_TICKS)
    }

    /// The turn cycle is in one of its states.
    pub closed spec fn wf(&self) -> bool {
        &&& self.base_ok()
        &&& 0 <= self@.phase < FIRST_TURN_TICKS + SECOND_TURN_TICKS
        &&& self.queuedturns@ == queue_at(self@.player1, self@.player2, FIRST_TURN_TICKS, SECOND_TURN_TICKS, self@.phase)
    }

    /// The queued entries.
    pub closed spec fn queue(&self) -> Seq<(u8, u32, u32)> {
        self.queuedturns@
    }

    pub closed spec fn refilling(&self) -> bool {
        self.base_ok() && self.queuedturns@.len() == 0
    }

    /// The states that the upkeep is called on: a state of the cycle, or one
    /// with a finished entry, or an empty queue.
    pub closed spec fn upkeep_ready(&self) -> bool {
        &&& self.base_ok()
        &&& {
            ||| self.wf()
            ||| self.queuedturns@ == seq![(self@.player1, 0u32, 0u32), (self@.player2, 0u32, SECOND_TURN_TICKS)]
            ||| self.queuedturns@ == seq![(self@.player2, 0u32, 0u32)]
            ||| self.queuedturns@.len() == 0
        }
    }

    /// The phase that the upkeep leads to.
    pub closed spec fn upkeep_phase(&self) -> int {
        if self.wf() {
            self@.phase
        } else if self.queuedturns@ == seq![(self@.player1, 0u32, 0u32), (self@.player2, 0u32, SECOND_TURN_TICKS)] {
            FIRST_TURN_TICKS as int
        } else {
            0
        }
    }

    proof fn lemma_wf_facts(&self)
        requires
            self.wf(),
        ensures
            live_entries(self.queuedturns@) == self.queuedturns@,
            active_set(self.queuedturns@) == set![self@.current_player()],
            has_active(self.queuedturns@),
    {
        lemma_queue_at(self@.player1, self@.player2, FIRST_TURN_TICKS, SECOND_TURN_TICKS, self@.phase);
        assert(self.queuedturns@[0].1 == 0 && self.queuedturns@[0].2 > 0);
    }

    /// Two players, player 1 on turn first.
    pub fn new_two_player(player1: u8, player2: u8) -> (tm: TurnManager)
        ensures
            tm.wf(),
            tm@ == (TurnCycle { player1, player2, phase: 0 }),
    {
        let mut toreturn = TurnManager { queuedturns: Vec::new(), basequeue: Vec::new() };
        toreturn.basequeue.push((player1, 0, FIRST_TURN_TICKS));
        toreturn.basequeue.push((player2, FIRST_TURN_TICKS, SECOND_TURN_TICKS));
        assert(toreturn.basequeue@ =~= base_queue(player1, player2, FIRST_TURN_TICKS, SECOND_TURN_TICKS));
        toreturn.tick();
        toreturn
    }

    /// Every state of the cycle is one that the upkeep can be called on.
    pub proof fn lemma_wf_upkeep_ready(&self)
        requires
            self.wf(),
        ensures
            self.upkeep_ready(),
    {
    }

    /// Brings the queue back into the cycle: refills an empty queue from the
    /// base, drops finished entries, and ticks on while nobody is on turn.
    pub fn timeless_upkeep(&mut self)
        requires
            old(self).upkeep_ready(),
        ensures
            final(self).wf(),
            has_active(final(self).queue()),
            active_set(final(self).queue()) == set![final(self)@.current_player()],
            old(self).wf() ==> final(self)@ == old(self)@ && final(self).queue() == old(self).queue(),
            final(self)@ == (TurnCycle { phase: old(self).upkeep_phase(), ..old(self)@ }),
        decreases 2 * old(self).queue().len(),
    {
        let ghost p1 = self@.player1;
        let ghost p2 = self@.player2;
        proof {
            lemma_turn_end(p1, p2, FIRST_TURN_TICKS, SECOND_TURN_TICKS);
            if self.wf() {
                self.lemma_wf_facts();
            }
        }
        if self.queuedturns.is_empty() {
            self.queuedturns = copy_queue(&self.basequeue);
            proof {
                assert(self.queuedturns@ =~= queue_at(p1, p2, FIRST_TURN_TICKS, SECOND_TURN_TICKS, 0));
                lemma_queue_at(p1, p2, FIRST_TURN_TICKS, SECOND_TURN_TICKS, 0);
            }
        }
        self.queuedturns = keep_live_entries(&self.queuedturns);
        proof {
            lemma_queue_at(p1, p2, FIRST_TURN_TICKS, SECOND_TURN_TICKS, FIRST_TURN_TICKS as int);
            lemma_queue_at(p1, p2, FIRST_TURN_TICKS, SECOND_TURN_TICKS, 0);
        }
        if !self.is_active_turns() {
            proof {
                if self.queuedturns@.len() > 0 {
                    assert(self.wf());
                    self.lemma_wf_facts();
                }
            }
            self.tick();
        }
        proof {
            self.lemma_wf_facts();
        }
    }

    /// One tick: every queued turn moves on.
    pub fn tick(&mut self)
        requires
            old(self).wf() || old(self).refilling(),
        ensures
            final(self).wf(),
            old(self).wf() ==> final(self)@ == old(self)@.ticked(),
            !old(self).wf() ==> final(self)@ == (TurnCycle { phase: 0, ..old(self)@ }),
        decreases 2 * old(self).queue().len() + 1,
    {
        let ghost p1 = self@.player1;
        let ghost p2 = self@.player2;
        let ghost t = self@.phase;
        let ghost was_wf = self.wf();
        proof {
            if was_wf {
                lemma_step(p1, p2, FIRST_TURN_TICKS, SECOND_TURN_TICKS, t);
                lemma_queue_at(p1, p2, FIRST_TURN_TICKS, SECOND_TURN_TICKS, t);
            }
        }
        decrement_entries(&mut self.queuedturns);
        proof {
            lemma_turn_end(p1, p2, FIRST_TURN_TICKS, SECOND_TURN_TICKS);
            if was_wf && t + 1 < FIRST_TURN_TICKS + SECOND_TURN_TICKS && t + 1 != FIRST_TURN_TICKS {
                lemma_queue_at(p1, p2, FIRST_TURN_TICKS, SECOND_TURN_TICKS, t + 1);
            }
            if !was_wf {
                assert(self.queuedturns@ =~= Seq::<(u8, u32, u32)>::empty());
            }
        }
        self.timeless_upkeep();
    }

    /// Whether some player is on turn.
    pub fn is_active_turns(&self) -> (b: bool)
        ensures
            b == has_active(self.queue()),
            self.wf() ==> b,
    {
        proof {
            if self.wf() {
                self.lemma_wf_facts();
            }
        }
        queue_has_active(&self.queuedturns)
    }

    /// The player acts, which ends their turn: ticks on until they are no
    /// longer on turn.
    pub fn player_took_action(&mut self, playerid: u8)
        requires
            old(self).wf(),
            old(self)@.player1 != old(self)@.player2,
        ensures
            final(self).wf(),
            final(self)@ == old(self)@.after_action(playerid),
    {
        let ghost start = self@;
        let ghost p1 = self@.player1;
        let ghost p2 = self@.player2;
        let ghost mut remaining: int = if playerid == self@.current_player() {
            if self@.phase < FIRST_TURN_TICKS { FIRST_TURN_TICKS - self@.phase } else { FIRST_TURN_TICKS
                + SECOND_TURN_TICKS - self@.phase }
        } else {
            0
        };
        proof {
            self.lemma_wf_facts();
        }
        while self.get_current_players().contains(&playerid)
            invariant
                self.wf(),
                self@.player1 == p1,
                self@.player2 == p2,
                p1 != p2,
                start.player1 == p1 && start.player2 == p2,
                0 <= start.phase < FIRST_TURN_TICKS + SECOND_TURN_TICKS,
                remaining >= 0,
                start.phase < FIRST_TURN_TICKS ==> remaining <= FIRST_TURN_TICKS - start.phase,
                start.phase >= FIRST_TURN_TICKS ==> remaining <= FIRST_TURN_TICKS + SECOND_TURN_TICKS - start.phase,
                playerid != start.current_player() ==> remaining == 0 && self@ == start,
                playerid == start.current_player() && remaining == 0 ==> self@ == start.after_action(playerid),
                playerid == start.current_player() && remaining > 0 ==> {
                    &&& start.phase < FIRST_TURN_TICKS ==> self@.phase == FIRST_TURN_TICKS - remaining
                    &&& start.phase >= FIRST_TURN_TICKS ==> self@.phase == FIRST_TURN_TICKS + SECOND_TURN_TICKS
                        - remaining
                },
            decreases remaining,
        {
            proof {
                self.lemma_wf_facts();
                assert(playerid == self@.current_player());
                assert(playerid == start.current_player());
                assert(remaining > 0);
            }
            self.tick();
            proof {
                remaining = remaining - 1;
            }
        }
        proof {
            self.lemma_wf_facts();
            if playerid == start.current_player() && remaining > 0 {
                if start.phase < FIRST_TURN_TICKS {
                    assert(self@.current_player() == p1);
                } else {
                    assert(self@.current_player() == p2);
                }
            }
        }
    }

    /// The players on turn.
    pub fn get_current_players(&self) -> (r: HashSet<u8>)
        ensures
            r@ == active_set(self.queue()),
            self.wf() ==> r@ == set![self@.current_player()],
    {
        proof {
            if self.wf() {
                self.lemma_wf_facts();
            }
        }
        queue_active_players(&self.queuedturns)
    }
}

/// Runs players 1 and 2 through thirty ticks and an action by player 2, and
/// checks who is on turn at each step: player 1 at the start, player 2 after
/// thirty ticks, and player 1 again after player 2 acts.
pub fn test_turn_manager() {
    let mut turnmanager = TurnManager::new_two_player(1, 2);
    let active = turnmanager.is_active_turns();
    assert(active);
    let currentplayers = turnmanager.get_current_players();
    assert(currentplayers@ == set![1u8]);
    let mut x: u32 = 0;
    while x < 30
        invariant
            x <= 30,
            turnmanager.wf(),
            turnmanager@ == (TurnCycle { player1: 1, player2: 2, phase: x as int }),
        decreases 30 - x,
    {
        turnmanager.tick();
        x = x + 1;
    }
    let currentplayers = turnmanager.get_current_players();
    assert(currentplayers@ == set![2u8]);
    turnmanager.player_took_action(2);
    let currentplayers = turnmanager.get_current_players();
    assert(currentplayers@ == set![1u8]);
}

} // verus!

verus! {

/// The cycle after `n` ticks.
pub open spec fn ticked_times(v: TurnCycle, n: nat) -> TurnCycle
    decreases n,
{
    if n == 0 {
        v
    } else {
        ticked_times(v, (n - 1) as nat).ticked()
    }
}

/// `n` ticks move the cycle `n` phases on, round the cycle of both turns.
pub proof fn lemma_ticks_phase(v: TurnCycle, n: nat)
    requires
        0 <= v.phase < FIRST_TURN_TICKS + SECOND_TURN_TICKS,
    ensures
        ticked_times(v, n).phase == (v.phase + n) % ((FIRST_TURN_TICKS + SECOND_TURN_TICKS) as int),
        ticked_times(v, n).player1 == v.player1,
        ticked_times(v, n).player2 == v.player2,
    decreases n,
{
    let m = (FIRST_TURN_TICKS + SECOND_TURN_TICKS) as int;
    if n == 0 {
        assert(v.phase % m == v.phase) by (nonlinear_arith)
            requires
                0 <= v.phase < m,
        ;
    } else {
        lemma_ticks_phase(v, (n - 1) as nat);
        let prev = ticked_times(v, (n - 1) as nat);
        let q = v.phase + n - 1;
        assert(prev.phase == q % m);
        assert(ticked_times(v, n) == prev.ticked());
        assert((q + 1) % m == if q % m + 1 < m { q % m + 1 } else { 0 }) by (nonlinear_arith)
            requires
                m > 0,
                q >= 0,
        ;
    }
}

/// After the ticks of both turns the cycle is back where it was, with the
/// same player on turn.
pub proof fn lemma_ticks_go_round(v: TurnCycle)
    requires
        0 <= v.phase < FIRST_TURN_TICKS + SECOND_TURN_TICKS,
    ensures
        ticked_times(v, (FIRST_TURN_TICKS + SECOND_TURN_TICKS) as nat).phase == v.phase,
        ticked_times(v, (FIRST_TURN_TICKS + SECOND_TURN_TICKS) as nat).current_player() == v.current_player(),
{
    let m = (FIRST_TURN_TICKS + SECOND_TURN_TICKS) as int;
    lemma_ticks_phase(v, m as nat);
    assert((v.phase + m) % m == v.phase) by (nonlinear_arith)
        requires
            0 <= v.phase < m,
    ;
}

/// When the player on turn acts, the turn passes to the other player; a
/// player not on turn acting changes nothing.
pub proof fn lemma_action_passes_turn(v: TurnCycle, playerid: u8)
    requires
        0 <= v.phase < FIRST_TURN_TICKS + SECOND_TURN_TICKS,
        v.player1 != v.player2,
    ensures
        playerid == v.current_player() ==> v.after_action(playerid).current_player() != playerid,
        playerid != v.current_player() ==> v.after_action(playerid) == v,
{
}

} // verus!
