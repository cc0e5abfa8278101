pub mod boardmoves;
pub mod datastructs;
pub mod game;
pub mod rules;

use vstd::prelude::*;
use std::collections::HashMap;
use crate::chesspoker::maingame::datastructs::{blackjack_points, Card, CardValue};

verus! {

broadcast use vstd::std_specs::hash::group_hash_axioms;

/// A card game between players 1 and 2, as plain values.
pub struct CardGameView {
    /// The cards in each player's hand, in the order played.
    pub hands: Map<u8, Seq<Card>>,
    /// The cards in the middle; empty in blackjack.
    pub river: Seq<Card>,
    /// How many cards of the river are shown, from the first on.
    pub revealedriver: u8,
    /// Which players have passed.
    pub passed: Map<u8, bool>,
    /// Blackjack, else poker.
    pub blackjack: bool,
    /// Whether the game is over.
    pub ended: bool,
}

impl CardGameView {
    /// Whether a play keeps to what the game can take: in poker, at least one
    /// hand holds at most 2 cards afterwards.
    pub open spec fn can_play(self, playerid: u8, card: Card) -> bool {
        let h = self.hands.insert(playerid, self.hands[playerid].push(card));
        !self.blackjack ==> (h[1].len() <= 2 || h[2].len() <= 2)
    }

    /// The game after a player plays a card into their hand: blackjack is over
    /// once both hands hold 2 cards; poker shows 3, 4 or 5 river cards as the
    /// smaller hand holds 0, 1 or 2, and is over with 2.
    pub open spec fn after_play(self, playerid: u8, card: Card) -> CardGameView {
        let h = self.hands.insert(playerid, self.hands[playerid].push(card));
        let least = if h[1].len() < h[2].len() { h[1].len() } else { h[2].len() };
        if self.blackjack {
            CardGameView { hands: h, ended: h[1].len() >= 2 && h[2].len() >= 2, ..self }
        } else if least == 0 {
            CardGameView { hands: h, revealedriver: 3, ..self }
        } else if least == 1 {
            CardGameView { hands: h, revealedriver: 4, ..self }
        } else {
            CardGameView { hands: h, revealedriver: 5, ended: true, ..self }
        }
    }

    /// A game as play leaves it: blackjack shows no river and is over exactly
    /// when both hands hold 2 cards or more; poker has a river of five, shows 3
    /// cards and one more for each card the smaller hand holds, up to 2, and is
    /// over exactly when that hand holds 2.
    pub open spec fn in_play_shape(self) -> bool {
        &&& self.hands.dom() == set![1u8, 2u8]
        &&& if self.blackjack {
            &&& self.revealedriver == 0
            &&& self.ended == (self.hands[1].len() >= 2 && self.hands[2].len() >= 2)
        } else {
            let least = if self.hands[1].len() < self.hands[2].len() {
                self.hands[1].len()
            } else {
                self.hands[2].len()
            };
            &&& self.river.len() == 5
            &&& least <= 2
            &&& self.revealedriver == 3 + least
            &&& self.ended == (least == 2)
        }
    }
}

/// Whether the id is one of the two players of a card game.
pub open spec fn is_card_player(playerid: u8) -> bool {
    playerid == 1 || playerid == 2
}

/// The blackjack points of a hand with every ace counted as 1.
pub open spec fn blackjack_low(hand: Seq<Card>) -> int
    decreases hand.len(),
{
    if hand.len() == 0 {
        0
    } else {
        blackjack_low(hand.drop_last()) + if hand.last().spec_value() == CardValue::ace {
            1
        } else {
            blackjack_points(hand.last().spec_value()) as int
        }
    }
}

/// How many aces a hand holds.
pub open spec fn ace_count(hand: Seq<Card>) -> int
    decreases hand.len(),
{
    if hand.len() == 0 {
        0
    } else {
        ace_count(hand.drop_last()) + if hand.last().spec_value() == CardValue::ace { 1int } else { 0int }
    }
}

/// The best blackjack total of a hand: the aces count 1, and one of them
/// counts 11 where that keeps the total at 21 or under.
pub open spec fn blackjack_best(hand: Seq<Card>) -> int {
    if blackjack_low(hand) <= 11 && ace_count(hand) > 0 {
        blackjack_low(hand) + 10
    } else {
        blackjack_low(hand)
    }
}

/// The value of a blackjack hand: its best total, or 0 for a bust (over 21).
pub open spec fn blackjack_score(hand: Seq<Card>) -> int {
    if blackjack_best(hand) > 21 { 0 } else { blackjack_best(hand) }
}

/// The value of a poker hand: every hand is worth 10.
pub open spec fn poker_score(hand: Seq<Card>, river: Seq<Card>) -> int {
    10
}

/// A player's score in the game.
pub open spec fn hand_score(g: CardGameView, playerid: u8) -> int {
    if g.blackjack {
        blackjack_score(g.hands[playerid])
    } else {
        poker_score(g.hands[playerid], g.river)
    }
}

/// The winner of a finished game and the cards they win, looking at player 1
/// and then player 2: the first with the highest score wins every card in both
/// hands; with no score above 0, player 1 wins and the cards are thrown away.
pub open spec fn winner_rewards(g: CardGameView) -> (u8, Seq<Card>) {
    let s1 = hand_score(g, 1);
    let s2 = hand_score(g, 2);
    if s1 <= 0 && s2 <= 0 {
        (1u8, Seq::<Card>::empty())
    } else if s2 > s1 && s2 > 0 {
        (2u8, g.hands[1] + g.hands[2])
    } else {
        (1u8, g.hands[1] + g.hands[2])
    }
}

/// A total the hand can make: its points with `elevens` of its aces counted
/// as 11 and the others as 1.
pub open spec fn blackjack_total(hand: Seq<Card>, elevens: int) -> int {
    blackjack_low(hand) + 10 * elevens
}

/// The blackjack value of a hand is the largest total at most 21 that it can
/// make by counting each ace as 1 or 11, and 0 when every total is over 21.
pub proof fn lemma_blackjack_score_is_best_total(hand: Seq<Card>)
    ensures
        ({
            let aces = ace_count(hand);
            let s = blackjack_score(hand);
            ||| s == 0 && forall|j: int| 0 <= j <= aces ==> #[trigger] blackjack_total(hand, j) > 21
            ||| {
                &&& exists|j: int| 0 <= j <= aces && #[trigger] blackjack_total(hand, j) == s
                &&& s <= 21
                &&& forall|j: int| 0 <= j <= aces && #[trigger] blackjack_total(hand, j) <= 21 ==> blackjack_total(hand, j) <= s
            }
        }),
{
    lemma_aces_bounded(hand);
    let low = blackjack_low(hand);
    let aces = ace_count(hand);
    let s = blackjack_score(hand);
    if low <= 11 && aces > 0 {
        assert(blackjack_total(hand, 1) == s);
        assert forall|j: int| 0 <= j <= aces && #[trigger] blackjack_total(hand, j) <= 21 implies blackjack_total(hand, j) <= s by {
            if j >= 2 {
                assert(aces >= 2);
            }
        }
    } else if low <= 21 {
        assert(blackjack_total(hand, 0) == s);
        assert forall|j: int| 0 <= j <= aces && #[trigger] blackjack_total(hand, j) <= 21 implies blackjack_total(hand, j) <= s by {
            if j >= 1 {
                assert(aces > 0);
            }
        }
    } else {
        assert forall|j: int| 0 <= j <= aces implies #[trigger] blackjack_total(hand, j) > 21 by {}
    }
}

proof fn lemma_low_prefix(hand: Seq<Card>, i: int)
    requires
        0 <= i <= hand.len(),
    ensures
        blackjack_low(hand.take(i)) <= blackjack_low(hand),
        ace_count(hand.take(i)) <= blackjack_low(hand.take(i)),
        ace_count(hand) <= blackjack_low(hand),
    decreases hand.len() - i,
{
    if i == hand.len() {
        assert(hand.take(i) =~= hand);
        lemma_aces_bounded(hand);
    } else {
        lemma_low_prefix(hand, i + 1);
        assert(hand.take(i + 1).drop_last() =~= hand.take(i));
        lemma_aces_bounded(hand.take(i));
    }
}

proof fn lemma_aces_bounded(hand: Seq<Card>)
    ensures
        0 <= ace_count(hand) <= blackjack_low(hand),
    decreases hand.len(),
{
    if hand.len() > 0 {
        lemma_aces_bounded(hand.drop_last());
    }
}

/// A card game of blackjack or poker between players 1 and 2, which takes the
/// cards they play into their hands.
#[derive(Clone)]
pub struct CardGame {
    /// The cards in the hands of players 1 and 2.
    playerscards: HashMap<u8, Vec<Card>>,
    /// The cards in the middle of the board, empty in blackjack.
    river: Vec<Card>,
    /// How many cards of the river are shown, from the first on.
    revealedriver: u8,
    /// Whether each player has passed.
    hasplayerpassed: HashMap<u8, bool>,
    /// True for blackjack, false for poker.
    blackjackorpoker: bool,
    /// Whether the game is over.
    ended: bool,
}

impl View for CardGame {
    type V = CardGameView;

    closed spec fn view(&self) -> CardGameView {
        CardGameView {
            hands: self.playerscards@.map_values(|h: Vec<Card>| h@),
            river: self.river@,
            revealedriver: self.revealedriver,
            passed: self.hasplayerpassed@,
            blackjack: self.blackjackorpoker,
            ended: self.ended,
        }
    }
}

/// A copy of a list of cards.
fn copy_cards(v: &Vec<Card>) -> (r: Vec<Card>)
    ensures
        r@ == v@,
{
    let mut r: Vec<Card> = Vec::new();
    let mut i: usize = 0;
    while i < v.len()
        invariant
            i <= v.len(),
            r@ == v@.take(i as int),
        decreases v.len() - i,
    {
        r.push(v[i]);
        i = i + 1;
        assert(r@ =~= v@.take(i as int));
    }
    assert(v@.take(i as int) =~= v@);
    r
}

impl CardGame {
    /// Both hands are there, and only they.
    pub closed spec fn wf(&self) -> bool {
        self.playerscards@.dom() == set![1u8, 2u8]
    }

    /// Both players with empty hands, neither passed, not ended.
    fn new_game(river: Vec<Card>, revealedriver: u8, blackjackorpoker: bool) -> (g: CardGame)
        ensures
            g.wf(),
            g@ == (CardGameView {
                hands: map![1u8 => Seq::<Card>::empty(), 2u8 => Seq::<Card>::empty()],
                river: river@,
                revealedriver,
                passed: map![1u8 => false, 2u8 => false],
                blackjack: blackjackorpoker,
                ended: false,
            }),
    {
        let mut hasplayerpassedmap: HashMap<u8, bool> = HashMap::new();
        hasplayerpassedmap.insert(1, false);
        hasplayerpassedmap.insert(2, false);
        let mut playerscards: HashMap<u8, Vec<Card>> = HashMap::new();
        playerscards.insert(1, Vec::new());
        playerscards.insert(2, Vec::new());
        let g = CardGame {
            playerscards,
            river,
            revealedriver,
            hasplayerpassed: hasplayerpassedmap,
            blackjackorpoker,
            ended: false,
        };
        assert(g.playerscards@.dom() =~= set![1u8, 2u8]);
        assert(g@.hands =~= map![1u8 => Seq::<Card>::empty(), 2u8 => Seq::<Card>::empty()]);
        assert(g@.passed =~= map![1u8 => false, 2u8 => false]);
        g
    }

    /// A blackjack game: empty hands, no river.
    pub fn new_blackjack() -> (g: CardGame)
        ensures
            g.wf(),
            g@ == (CardGameView {
                hands: map![1u8 => Seq::<Card>::empty(), 2u8 => Seq::<Card>::empty()],
                river: Seq::<Card>::empty(),
                revealedriver: 0,
                passed: map![1u8 => false, 2u8 => false],
                blackjack: true,
                ended: false,
            }),
    {
        CardGame::new_game(Vec::new(), 0, true)
    }

    /// A poker game on a river of five cards, three of them shown.
    pub fn new_poker(river: Vec<Card>) -> (g: CardGame)
        requires
            river@.len() == 5,
        ensures
            g.wf(),
            g@ == (CardGameView {
                hands: map![1u8 => Seq::<Card>::empty(), 2u8 => Seq::<Card>::empty()],
                river: river@,
                revealedriver: 3,
                passed: map![1u8 => false, 2u8 => false],
                blackjack: false,
                ended: false,
            }),
    {
        CardGame::new_game(river, 3, false)
    }

    /// The cards in a player's hand; every player sees them.
    pub fn get_cards_in_hand(&self, playerperspective: u8, requestedplayer: u8) -> (r: Vec<Card>)
        requires
            self.wf(),
            is_card_player(requestedplayer),
        ensures
            r@ == self@.hands[requestedplayer],
    {
        copy_cards(self.playerscards.get(&requestedplayer).unwrap())
    }

    /// The river as it is shown: the cards past those revealed are hidden.
    pub fn get_cards_in_river_appearance(&self) -> (r: Vec<Card>)
        ensures
            r@.len() == self@.river.len(),
            forall|i: int| 0 <= i < r@.len() ==> #[trigger] r@[i] == if i < self@.revealedriver {
                self@.river[i]
            } else {
                Card::hidden()
            },
    {
        let mut toreturn: Vec<Card> = Vec::new();
        let mut i: usize = 0;
        while i < self.river.len()
            invariant
                i <= self.river@.len(),
                toreturn@.len() == i,
                forall|j: int| 0 <= j < i ==> #[trigger] toreturn@[j] == if j < self.revealedriver {
                    self.river@[j]
                } else {
                    Card::hidden()
                },
            decreases self.river.len() - i,
        {
            if i >= self.revealedriver as usize {
                toreturn.push(Card::new_unknown_card());
            } else {
                toreturn.push(self.river[i]);
            }
            i = i + 1;
        }
        toreturn
    }

    /// Whether the player may play a card now: the game is on, they have not
    /// passed, and their hand is under 4 cards in blackjack, under 2 in poker.
    pub fn is_player_allowed_to_play_card(&self, playerid: u8) -> (b: bool)
        requires
            self.wf(),
            !self@.ended ==> self@.passed.contains_key(playerid),
            !self@.ended && !self@.passed[playerid] ==> is_card_player(playerid),
        ensures
            b == (!self@.ended && !self@.passed[playerid] && self@.hands[playerid].len() < if self@.blackjack {
                4int
            } else {
                2int
            }),
    {
        if self.is_game_over() {
            return false;
        }
        if *self.hasplayerpassed.get(&playerid).unwrap() {
            return false;
        }
        let playerhand = self.playerscards.get(&playerid).unwrap();
        if self.blackjackorpoker {
            if playerhand.len() >= 4 {
                return false;
            }
        } else {
            if playerhand.len() >= 2 {
                return false;
            }
        }
        true
    }

    /// Whether the player must play a card: their hand is under 2 cards.
    pub fn must_player_play_card(&self, playerid: u8) -> (b: bool)
        requires
            self.wf(),
            is_card_player(playerid),
        ensures
            b == (self@.hands[playerid].len() < 2),
    {
        let playerhand = self.playerscards.get(&playerid).unwrap();
        if self.blackjackorpoker {
            if playerhand.len() < 2 {
                return true;
            }
        } else {
            if playerhand.len() < 2 {
                return true;
            }
        }
        false
    }

    /// Whether the game is over.
    pub fn is_game_over(&self) -> (b: bool)
        ensures
            b == self@.ended,
    {
        self.ended
    }

    /// The player plays a card into their hand. Blackjack is over once both
    /// hands hold 2 cards. In poker the river shows 3, 4 or 5 cards as the
    /// smaller hand holds 0, 1 or 2, and with 2 the game is over.
    pub fn play_card(&mut self, playerid: u8, card: Card)
        requires
            old(self).wf(),
            is_card_player(playerid),
            old(self)@.can_play(playerid, card),
        ensures
            final(self).wf(),
            final(self)@ == old(self)@.after_play(playerid, card),
    {
        let mut hand = self.playerscards.remove(&playerid).unwrap();
        hand.push(card);
        self.playerscards.insert(playerid, hand);
        let ghost h = old(self)@.hands.insert(playerid, old(self)@.hands[playerid].push(card));
        proof {
            assert(self.playerscards@.dom() =~= set![1u8, 2u8]);
            assert(self@.hands =~= h);
        }
        let len1 = self.playerscards.get(&1).unwrap().len();
        let len2 = self.playerscards.get(&2).unwrap().len();
        if self.blackjackorpoker {
            let mut endedblackjack = true;
            if len1 < 2 {
                endedblackjack = false;
            }
            if len2 < 2 {
                endedblackjack = false;
            }
            self.ended = endedblackjack;
        } else {
            let mut minimumcardsinhand: usize = 10;
            if len1 < minimumcardsinhand {
                minimumcardsinhand = len1;
            }
            if len2 < minimumcardsinhand {
                minimumcardsinhand = len2;
            }
            if minimumcardsinhand == 0 {
                self.revealedriver = 3;
            } else if minimumcardsinhand == 1 {
                self.revealedriver = 4;
            } else {
                self.revealedriver = 5;
                self.ended = true;
            }
        }
    }

    /// The player passes.
    pub fn player_passes(&mut self, playerid: u8)
        requires
            old(self).wf(),
        ensures
            final(self).wf(),
            final(self)@ == (CardGameView { passed: old(self)@.passed.insert(playerid, true), ..old(self)@ }),
    {
        self.hasplayerpassed.insert(playerid, true);
    }

    /// Once the game is over, the winner and the cards they win.
    fn get_winner_rewards(&mut self) -> (r: Option<(u8, Vec<Card>)>)
        requires
            old(self).wf(),
            old(self)@.blackjack ==> blackjack_low(old(self)@.hands[1]) <= u16::MAX && blackjack_low(
                old(self)@.hands[2],
            ) <= u16::MAX,
        ensures
            final(self)@ == old(self)@,
            final(self).wf(),
            !old(self)@.ended ==> r is None,
            old(self)@.ended ==> (r matches Some((w, cards)) && (w, cards@) == winner_rewards(old(self)@)),
    {
        if !self.is_game_over() {
            return None;
        }
        let hand1 = self.playerscards.get(&1).unwrap();
        let hand2 = self.playerscards.get(&2).unwrap();
        let mut allcardswon = copy_cards(hand1);
        let more = copy_cards(hand2);
        let mut i: usize = 0;
        while i < more.len()
            invariant
                i <= more@.len(),
                allcardswon@ == hand1@ + more@.take(i as int),
            decreases more.len() - i,
        {
            allcardswon.push(more[i]);
            i = i + 1;
            assert(allcardswon@ =~= hand1@ + more@.take(i as int));
        }
        assert(more@.take(i as int) =~= more@);
        let (s1, s2) = if self.blackjackorpoker {
            (CardGame::evaluate_blackjack_hand(hand1) as u32, CardGame::evaluate_blackjack_hand(hand2) as u32)
        } else {
            (CardGame::evaluate_poker_hand(hand1, &self.river), CardGame::evaluate_poker_hand(hand2, &self.river))
        };
        let mut highestscore: u32 = 0;
        let mut highestscoreholder: u8 = 0;
        if s1 > highestscore {
            highestscore = s1;
            highestscoreholder = 1;
        }
        if s2 > highestscore {
            highestscore = s2;
            highestscoreholder = 2;
        }
        if highestscore == 0 {
            Some((1, Vec::new()))
        } else {
            Some((highestscoreholder, allcardswon))
        }
    }

    /// The value of a blackjack hand: 0 for a bust, else its best total (see
    /// `blackjack_score`).
    fn evaluate_blackjack_hand(hand: &Vec<Card>) -> (v: u16)
        requires
            blackjack_low(hand@) <= u16::MAX,
        ensures
            v == blackjack_score(hand@),
    {
        let mut loweracevalue: u16 = 0;
        let mut numberofaces: usize = 0;
        let mut i: usize = 0;
        while i < hand.len()
            invariant
                i <= hand@.len(),
                blackjack_low(hand@) <= u16::MAX,
                loweracevalue == blackjack_low(hand@.take(i as int)),
                numberofaces == ace_count(hand@.take(i as int)),
            decreases hand.len() - i,
        {
            proof {
                lemma_low_prefix(hand@, i + 1);
                assert(hand@.take(i + 1).drop_last() =~= hand@.take(i as int));
            }
            let currentcard = hand[i];
            if currentcard.is_ace() {
                numberofaces = numberofaces + 1;
                loweracevalue = loweracevalue + 1;
            } else {
                loweracevalue = loweracevalue + currentcard.blackjackvalue();
            }
            i = i + 1;
        }
        proof {
            assert(hand@.take(i as int) =~= hand@);
            lemma_aces_bounded(hand@);
        }
        let ghost low = loweracevalue as int;
        let ghost aces = numberofaces as int;
        loop
            invariant
                low == blackjack_low(hand@),
                aces == ace_count(hand@),
                0 <= aces <= low,
                (loweracevalue == low && numberofaces == aces) || (loweracevalue == low + 10 && low <= 11
                    && aces > 0 && numberofaces == aces - 1),
            ensures
                loweracevalue == blackjack_best(hand@),
            decreases numberofaces,
        {
            if loweracevalue > 11 {
                break;
            }
            if numberofaces > 0 {
                loweracevalue = loweracevalue + 10;
                numberofaces = numberofaces - 1;
            } else {
                break;
            }
        }
        if loweracevalue > 21 {
            0
        } else {
            loweracevalue
        }
    }

    /// The value of a poker hand with a river: every hand is worth 10.
    fn evaluate_poker_hand(hand: &Vec<Card>, river: &Vec<Card>) -> (v: u32)
        ensures
            v == poker_score(hand@, river@),
    {
        10
    }
}


/// New games have the shape of play, every play and pass keeps it, and so a
/// game that is over stays over.
pub proof fn lemma_play_keeps_shape(g: CardGameView, playerid: u8, card: Card)
    requires
        g.in_play_shape(),
        is_card_player(playerid),
        g.can_play(playerid, card),
    ensures
        g.after_play(playerid, card).in_play_shape(),
        g.ended ==> g.after_play(playerid, card).ended,
        (CardGameView { passed: g.passed.insert(playerid, true), ..g }).in_play_shape(),
{
    let h = g.hands.insert(playerid, g.hands[playerid].push(card));
    assert(h.dom() =~= set![1u8, 2u8]);
}

/// A new blackjack game, and a new poker game on a river of five, have the
/// shape of play.
pub proof fn lemma_new_games_in_shape(river: Seq<Card>)
    requires
        river.len() == 5,
    ensures
        (CardGameView {
            hands: map![1u8 => Seq::<Card>::empty(), 2u8 => Seq::<Card>::empty()],
            river: Seq::<Card>::empty(),
            revealedriver: 0,
            passed: map![1u8 => false, 2u8 => false],
            blackjack: true,
            ended: false,
        }).in_play_shape(),
        (CardGameView {
            hands: map![1u8 => Seq::<Card>::empty(), 2u8 => Seq::<Card>::empty()],
            river,
            revealedriver: 3,
            passed: map![1u8 => false, 2u8 => false],
            blackjack: false,
            ended: false,
        }).in_play_shape(),
{
    assert(map![1u8 => Seq::<Card>::empty(), 2u8 => Seq::<Card>::empty()].dom() =~= set![1u8, 2u8]);
}

} // verus!
