use vstd::prelude::*;
use std::collections::HashMap;
use std::collections::HashSet;
use crate::handrank::{is_rankable_hand, poker_hand_rank, rank_poker_hand, rankable_hand, rank_at_least};
use crate::rng::random_below;

verus! {

broadcast use vstd::std_specs::hash::group_hash_axioms;

/// An action a player takes in a poker game.
#[allow(non_camel_case_types)]
#[derive(Clone, Debug)]
pub enum PokerAction {
    /// Raise, offering these pieces.
    raise(Vec<u16>),
    fold,
    /// Check, offering these pieces.
    check(Vec<u16>),
}

/// An action a player takes in a blackjack game.
#[allow(non_camel_case_types)]
#[derive(Clone, Copy, Debug, PartialEq, Eq, Structural)]
pub enum BlackJackAction {
    hit,
    stand,
}

/// How a card is played.
#[allow(non_camel_case_types)]
#[derive(Clone, Copy, Debug, PartialEq, Eq, Structural)]
pub enum CardAction {
    /// On the active board.
    playcardonboard,
    /// With a piece as its target.
    playcardonpiece(u16),
    /// With a board square as its target.
    playcardonsquare(u16),
}

/// The face value of a card.
#[allow(non_camel_case_types)]
#[derive(Clone, Copy, Debug, PartialEq, Eq, Hash, Structural)]
pub enum CardValue {
    ace,
    two,
    three,
    four,
    five,
    six,
    seven,
    eight,
    nine,
    ten,
    jack,
    queen,
    king,
}

/// What playing a card does.
#[allow(non_camel_case_types)]
#[derive(Clone, Copy, Debug, PartialEq, Eq, Hash, Structural)]
pub enum CardEffect {
    /// Starts a blackjack game with this card as the first card.
    blackjackgame,
    /// Starts a poker game with this card as the first card.
    pokergame,
    /// Removes a square from the board.
    dropsquare,
    /// Raises a square so that no piece can pass it.
    raisesquare,
    /// Gives the game pool settings.
    makepoolgame,
    backtobackturns,
    halvetimeleft,
}

/// The suit of a card.
#[allow(non_camel_case_types)]
#[derive(Clone, Copy, Debug, PartialEq, Eq, Hash, Structural)]
pub enum CardSuit {
    diamonds,
    clubs,
    hearts,
    spades,
}

/// A playing card with an effect.
#[derive(Clone, Copy, Debug, PartialEq, Eq, Hash, Structural)]
pub struct Card {
    value: CardValue,
    suit: CardSuit,
    pub effect: CardEffect,
}

/// The number of a face value: ace 1, two 2, up to king 13.
pub open spec fn value_number(v: CardValue) -> u16 {
    match v {
        CardValue::ace => 1,
        CardValue::two => 2,
        CardValue::three => 3,
        CardValue::four => 4,
        CardValue::five => 5,
        CardValue::six => 6,
        CardValue::seven => 7,
        CardValue::eight => 8,
        CardValue::nine => 9,
        CardValue::ten => 10,
        CardValue::jack => 11,
        CardValue::queen => 12,
        CardValue::king => 13,
    }
}

/// The blackjack value of a face value other than the ace: its number, ten for
/// the face cards.
pub open spec fn blackjack_points(v: CardValue) -> u16 {
    if value_number(v) > 10 { 10 } else { value_number(v) }
}

/// The face value whose index in `ace, two, ..., king` is `n`.
pub open spec fn value_of_index(n: int) -> CardValue {
    if n == 0 { CardValue::ace }
    else if n == 1 { CardValue::two }
    else if n == 2 { CardValue::three }
    else if n == 3 { CardValue::four }
    else if n == 4 { CardValue::five }
    else if n == 5 { CardValue::six }
    else if n == 6 { CardValue::seven }
    else if n == 7 { CardValue::eight }
    else if n == 8 { CardValue::nine }
    else if n == 9 { CardValue::ten }
    else if n == 10 { CardValue::jack }
    else if n == 11 { CardValue::queen }
    else { CardValue::king }
}

/// The suit whose index in `diamonds, clubs, hearts, spades` is `n`.
pub open spec fn suit_of_index(n: int) -> CardSuit {
    if n == 0 { CardSuit::diamonds }
    else if n == 1 { CardSuit::clubs }
    else if n == 2 { CardSuit::hearts }
    else { CardSuit::spades }
}

/// The card as `rs_poker` indexes it: value two 0 up to king 11 and ace 12;
/// suit spade 0, club 1, heart 2, diamond 3.
pub open spec fn poker_index(c: Card) -> (u8, u8) {
    (
        if c.spec_value() == CardValue::ace { 12u8 } else { (value_number(c.spec_value()) - 2) as u8 },
        match c.spec_suit() {
            CardSuit::spades => 0u8,
            CardSuit::clubs => 1u8,
            CardSuit::hearts => 2u8,
            CardSuit::diamonds => 3u8,
        },
    )
}

impl Card {
    pub closed spec fn spec_value(self) -> CardValue {
        self.value
    }

    pub closed spec fn spec_suit(self) -> CardSuit {
        self.suit
    }

    pub closed spec fn spec_effect(self) -> CardEffect {
        self.effect
    }

    /// A card with these parts.
    pub fn new(value: CardValue, suit: CardSuit, effect: CardEffect) -> (c: Card)
        ensures
            c.spec_value() == value,
            c.spec_suit() == suit,
            c.spec_effect() == effect,
    {
        Card { value, suit, effect }
    }

    pub fn is_ace(&self) -> (b: bool)
        ensures
            b == (self.spec_value() == CardValue::ace),
    {
        match self.value {
            CardValue::ace => true,
            _ => false,
        }
    }

    /// The blackjack value; an ace has none, because it may count 1 or 11.
    pub fn blackjackvalue(&self) -> (v: u16)
        requires
            self.spec_value() != CardValue::ace,
        ensures
            v == blackjack_points(self.spec_value()),
    {
        match self.value {
            CardValue::two => 2,
            CardValue::three => 3,
            CardValue::four => 4,
            CardValue::five => 5,
            CardValue::six => 6,
            CardValue::seven => 7,
            CardValue::eight => 8,
            CardValue::nine => 9,
            CardValue::ten => 10,
            CardValue::jack => 10,
            CardValue::queen => 10,
            CardValue::king => 10,
            CardValue::ace => 1,
        }
    }

    /// The number of the face value, 1 to 13.
    pub fn numbervalue(&self) -> (v: u16)
        ensures
            v == value_number(self.spec_value()),
            1 <= v <= 13,
    {
        match self.value {
            CardValue::two => 2,
            CardValue::three => 3,
            CardValue::four => 4,
            CardValue::five => 5,
            CardValue::six => 6,
            CardValue::seven => 7,
            CardValue::eight => 8,
            CardValue::nine => 9,
            CardValue::ten => 10,
            CardValue::jack => 11,
            CardValue::queen => 12,
            CardValue::king => 13,
            CardValue::ace => 1,
        }
    }

    /// The card's `rs_poker` indices.
    fn get_rs_poker_card(&self) -> (r: (u8, u8))
        ensures
            r == poker_index(*self),
    {
        let value: u8 = match self.value {
            CardValue::ace => 12,
            CardValue::king => 11,
            CardValue::queen => 10,
            CardValue::jack => 9,
            CardValue::ten => 8,
            CardValue::nine => 7,
            CardValue::eight => 6,
            CardValue::seven => 5,
            CardValue::six => 4,
            CardValue::five => 3,
            CardValue::four => 2,
            CardValue::three => 1,
            CardValue::two => 0,
        };
        let suit: u8 = match self.suit {
            CardSuit::clubs => 1,
            CardSuit::diamonds => 3,
            CardSuit::spades => 0,
            CardSuit::hearts => 2,
        };
        (value, suit)
    }

    /// The number of the suit: clubs 0, diamonds 1, hearts 2, spades 3.
    pub fn suitvalue(&self) -> (v: u16)
        ensures
            v == match self.spec_suit() {
                CardSuit::clubs => 0u16,
                CardSuit::diamonds => 1u16,
                CardSuit::hearts => 2u16,
                CardSuit::spades => 3u16,
            },
    {
        match self.suit {
            CardSuit::clubs => 0,
            CardSuit::diamonds => 1,
            CardSuit::hearts => 2,
            CardSuit::spades => 3,
        }
    }

    /// A card of random value and suit. The effect is drawn too, but every card
    /// made here starts a poker game.
    pub fn new_random_card() -> (c: Card)
        ensures
            c.spec_effect() == CardEffect::pokergame,
    {
        let _drawn_effect = random_below(7);
        let valuenumb = random_below(13);
        let suitnumb = random_below(4);
        Card { value: card_value_from_index(valuenumb), suit: card_suit_from_index(suitnumb), effect: CardEffect::pokergame }
    }
}

/// The face value with this index in `ace, two, ..., king`.
pub fn card_value_from_index(n: usize) -> (v: CardValue)
    requires
        n < 13,
    ensures
        v == value_of_index(n as int),
{
    if n == 0 { CardValue::ace }
    else if n == 1 { CardValue::two }
    else if n == 2 { CardValue::three }
    else if n == 3 { CardValue::four }
    else if n == 4 { CardValue::five }
    else if n == 5 { CardValue::six }
    else if n == 6 { CardValue::seven }
    else if n == 7 { CardValue::eight }
    else if n == 8 { CardValue::nine }
    else if n == 9 { CardValue::ten }
    else if n == 10 { CardValue::jack }
    else if n == 11 { CardValue::queen }
    else { CardValue::king }
}

/// The suit with this index in `diamonds, clubs, hearts, spades`.
pub fn card_suit_from_index(n: usize) -> (s: CardSuit)
    requires
        n < 4,
    ensures
        s == suit_of_index(n as int),
{
    if n == 0 { CardSuit::diamonds }
    else if n == 1 { CardSuit::clubs }
    else if n == 2 { CardSuit::hearts }
    else { CardSuit::spades }
}

} // verus!

verus! {

/// The ids of a sequence of id-and-card pairs.
pub open spec fn ids_of(s: Seq<(u16, Card)>) -> Seq<u16> {
    s.map_values(|p: (u16, Card)| p.0)
}

/// The `rs_poker` indices of a hand together with the river, hand first.
pub open spec fn showdown_cards(hand: Seq<(u16, Card)>, river: Seq<(u16, Card)>) -> Seq<(u8, u8)> {
    (hand + river).map_values(|p: (u16, Card)| poker_index(p.1))
}

/// `pos` is the first position of `id` in `s`.
pub open spec fn first_position(s: Seq<u16>, id: u16, pos: int) -> bool {
    &&& 0 <= pos < s.len()
    &&& s[pos] == id
    &&& forall|j: int| 0 <= j < pos ==> s[j] != id
}

/// What a poker game holds, as plain values.
pub struct PokerGameView {
    pub player1pool: u8,
    pub player2pool: u8,
    pub player1hand: Seq<(u16, Card)>,
    pub player2hand: Seq<(u16, Card)>,
    pub river: Seq<(u16, Card)>,
    pub dealer: u8,
    pub hasdealergone: bool,
    pub roundnumber: u32,
    /// The player who folded, if one did.
    pub folded: Option<u8>,
}

impl PokerGameView {
    /// The shape every game has: a river of five and at most two cards a hand.
    pub open spec fn wf(self) -> bool {
        &&& self.river.len() == 5
        &&& self.player1hand.len() <= 2
        &&& self.player2hand.len() <= 2
    }

    /// The player whose move the game waits for: the dealer until the dealer
    /// has gone this round, then the other player.
    pub open spec fn current_player(self) -> u8 {
        if self.hasdealergone {
            if self.dealer == 1 { 2 } else { 1 }
        } else {
            self.dealer
        }
    }

    /// What it costs to check: how far apart the two pools are.
    pub open spec fn cost_to_check(self) -> u8 {
        if self.player1pool >= self.player2pool {
            (self.player1pool - self.player2pool) as u8
        } else {
            (self.player2pool - self.player1pool) as u8
        }
    }

    /// Whether `playerid` may act now, and if so at what cost to check.
    pub open spec fn options(self, playerid: u8) -> Option<u8> {
        if self.roundnumber < 4 && ((self.dealer == playerid) != self.hasdealergone) {
            Some(self.cost_to_check())
        } else {
            None
        }
    }

    /// The game after the current player has acted: the dealer's move hands the
    /// turn on, the other player's move closes the round.
    pub open spec fn after_move(self) -> PokerGameView {
        if self.current_player() == self.dealer {
            PokerGameView { hasdealergone: true, ..self }
        } else {
            PokerGameView { hasdealergone: false, roundnumber: (self.roundnumber + 1) as u32, ..self }
        }
    }

    /// The cards that take part in the game, in hand and river order.
    pub open spec fn card_ids(self) -> Seq<u16> {
        ids_of(self.player1hand) + ids_of(self.player2hand) + ids_of(self.river)
    }

    /// The game after the current player folds: their hand is emptied, the
    /// game is over, and they are recorded as the folder.
    pub open spec fn after_fold(self) -> PokerGameView {
        if self.current_player() == 1 {
            PokerGameView { player1hand: Seq::empty(), roundnumber: 4, folded: Some(1u8), ..self }
        } else {
            PokerGameView { player2hand: Seq::empty(), roundnumber: 4, folded: Some(2u8), ..self }
        }
    }

    /// The game is over and goes to the hands: nobody folded.
    pub open spec fn at_showdown(self) -> bool {
        self.roundnumber >= 4 && self.folded is None
    }

    /// Both showdown hands can be ranked.
    pub open spec fn rankable(self) -> bool {
        &&& rankable_hand(showdown_cards(self.player1hand, self.river))
        &&& rankable_hand(showdown_cards(self.player2hand, self.river))
    }

    /// The winner once the game is over: the other player if one folded, else
    /// player 1 unless player 2's hand ranks strictly higher.
    pub open spec fn winner(self) -> Option<u8> {
        if self.roundnumber >= 4 {
            if let Some(folder) = self.folded {
                Some(if folder == 1 { 2u8 } else { 1u8 })
            } else if rank_at_least(
                poker_hand_rank(showdown_cards(self.player1hand, self.river)),
                poker_hand_rank(showdown_cards(self.player2hand, self.river)),
            ) {
                Some(1u8)
            } else {
                Some(2u8)
            }
        } else {
            None
        }
    }

    /// Where a card of the game lies: field 3 for player 1's hand, 4 for player
    /// 2's, 5 for the river; its first position there from 0; and the field's size.
    pub open spec fn location(self, cardid: u16, r: (u8, u8, u8)) -> bool {
        if ids_of(self.player1hand).contains(cardid) {
            r.0 == 3 && first_position(ids_of(self.player1hand), cardid, r.1 as int)
                && r.2 == self.player1hand.len()
        } else if ids_of(self.player2hand).contains(cardid) {
            r.0 == 4 && first_position(ids_of(self.player2hand), cardid, r.1 as int)
                && r.2 == self.player2hand.len()
        } else {
            r.0 == 5 && first_position(ids_of(self.river), cardid, r.1 as int)
                && r.2 == self.river.len()
        }
    }
}

/// A player who folds loses the game: it is over, needs no ranking of the
/// hands, and goes to the other player.
pub proof fn lemma_folder_loses(g: PokerGameView)
    ensures
        g.after_fold().roundnumber >= 4,
        !g.after_fold().at_showdown(),
        g.after_fold().winner() == Some(if g.current_player() == 1 { 2u8 } else { 1u8 }),
{
}

/// A two-player hold'em game played for pool money.
#[derive(Clone)]
pub struct PokerGame {
    player1pool: u8,
    player2pool: u8,
    player1hand: Vec<(u16, Card)>,
    player2hand: Vec<(u16, Card)>,
    river: Vec<(u16, Card)>,
    dealer: u8,
    hasdealergone: bool,
    roundnumber: u32,
    folded: Option<u8>,
}

impl View for PokerGame {
    type V = PokerGameView;

    closed spec fn view(&self) -> PokerGameView {
        PokerGameView {
            player1pool: self.player1pool,
            player2pool: self.player2pool,
            player1hand: self.player1hand@,
            player2hand: self.player2hand@,
            river: self.river@,
            dealer: self.dealer,
            hasdealergone: self.hasdealergone,
            roundnumber: self.roundnumber,
            folded: self.folded,
        }
    }
}

fn push_ids(out: &mut Vec<u16>, cards: &Vec<(u16, Card)>)
    ensures
        final(out)@ == old(out)@ + ids_of(cards@),
{
    let mut i: usize = 0;
    while i < cards.len()
        invariant
            i <= cards.len(),
            out@ == old(out)@ + ids_of(cards@.take(i as int)),
        decreases cards.len() - i,
    {
        out.push(cards[i].0);
        i = i + 1;
        assert(ids_of(cards@.take(i as int)) =~= ids_of(cards@.take(i - 1)).push(cards@[i - 1].0));
    }
    assert(cards@.take(i as int) =~= cards@);
}

fn push_poker_indices(out: &mut Vec<(u8, u8)>, cards: &Vec<(u16, Card)>)
    ensures
        final(out)@ == old(out)@ + cards@.map_values(|p: (u16, Card)| poker_index(p.1)),
{
    let mut i: usize = 0;
    while i < cards.len()
        invariant
            i <= cards.len(),
            out@ == old(out)@ + cards@.take(i as int).map_values(|p: (u16, Card)| poker_index(p.1)),
        decreases cards.len() - i,
    {
        let idx = cards[i].1.get_rs_poker_card();
        out.push(idx);
        i = i + 1;
        assert(cards@.take(i as int).map_values(|p: (u16, Card)| poker_index(p.1)) =~= cards@.take(
            i - 1,
        ).map_values(|p: (u16, Card)| poker_index(p.1)).push(poker_index(cards@[i - 1].1)));
    }
    assert(cards@.take(i as int) =~= cards@);
}

/// The first position of `id` among the ids of `cards`, which hold it.
fn find_position(cards: &Vec<(u16, Card)>, id: u16) -> (pos: usize)
    requires
        ids_of(cards@).contains(id),
    ensures
        first_position(ids_of(cards@), id, pos as int),
{
    let mut i: usize = 0;
    while i < cards.len()
        invariant
            i <= cards.len(),
            ids_of(cards@).contains(id),
            forall|j: int| 0 <= j < i ==> ids_of(cards@)[j] != id,
        decreases cards.len() - i,
    {
        if cards[i].0 == id {
            return i;
        }
        i = i + 1;
    }
    proof {
        let k = choose|k: int| 0 <= k < ids_of(cards@).len() && ids_of(cards@)[k] == id;
        assert(ids_of(cards@)[k] == id);
    }
    0
}

impl PokerGame {
    /// A game between dealer player 1, who has put 1 in the pool, and player 2,
    /// who has put in 2, at round 0.
    fn new(river: Vec<(u16, Card)>, player1hand: Vec<(u16, Card)>, player2hand: Vec<(u16, Card)>) -> (g: PokerGame)
        ensures
            g@ == (PokerGameView {
                player1pool: 1,
                player2pool: 2,
                player1hand: player1hand@,
                player2hand: player2hand@,
                river: river@,
                dealer: 1,
                hasdealergone: false,
                roundnumber: 0,
                folded: None,
            }),
    {
        PokerGame {
            player1pool: 1,
            player2pool: 2,
            player1hand,
            player2hand,
            river,
            dealer: 1,
            hasdealergone: false,
            roundnumber: 0,
            folded: None,
        }
    }

    /// Whether this player may act now, and what it costs to check.
    fn can_player_act(&self, playerid: u8) -> (r: Option<u8>)
        ensures
            r == self@.options(playerid),
    {
        if self.roundnumber < 4 {
            let costtocheck: u8 = if self.player1pool >= self.player2pool {
                self.player1pool - self.player2pool
            } else {
                self.player2pool - self.player1pool
            };
            if self.dealer == playerid {
                if self.hasdealergone == false {
                    return Some(costtocheck);
                } else {
                    return None;
                }
            } else {
                if self.hasdealergone == true {
                    return Some(costtocheck);
                } else {
                    return None;
                }
            }
        }
        None
    }

    /// The current player puts `amount` more into their pool.
    fn player_raises(&mut self, amount: u8)
        requires
            old(self)@.current_player() == 1 ==> old(self)@.player1pool + amount <= u8::MAX,
            old(self)@.current_player() != 1 ==> old(self)@.player2pool + amount <= u8::MAX,
            old(self)@.current_player() != old(self)@.dealer ==> old(self)@.roundnumber < u32::MAX,
        ensures
            final(self)@ == (if old(self)@.current_player() == 1 {
                PokerGameView { player1pool: (old(self)@.player1pool + amount) as u8, ..old(self)@ }
            } else {
                PokerGameView { player2pool: (old(self)@.player2pool + amount) as u8, ..old(self)@ }
            }).after_move(),
    {
        let playerid = self.get_current_player();
        if playerid == 1 {
            self.player1pool = self.player1pool + amount;
        } else {
            self.player2pool = self.player2pool + amount;
        }
        if playerid == self.dealer {
            self.hasdealergone = true;
        } else {
            self.hasdealergone = false;
            self.roundnumber = self.roundnumber + 1;
        }
    }

    /// The current player matches the other pool.
    fn player_checks(&mut self)
        requires
            old(self)@.current_player() != old(self)@.dealer ==> old(self)@.roundnumber < u32::MAX,
        ensures
            final(self)@ == (if old(self)@.current_player() == 1 {
                PokerGameView { player1pool: old(self)@.player2pool, ..old(self)@ }
            } else {
                PokerGameView { player2pool: old(self)@.player1pool, ..old(self)@ }
            }).after_move(),
    {
        let playerid = self.get_current_player();
        if playerid == 1 {
            self.player1pool = self.player2pool;
        } else {
            self.player2pool = self.player1pool;
        }
        if playerid == self.dealer {
            self.hasdealergone = true;
        } else {
            self.hasdealergone = false;
            self.roundnumber = self.roundnumber + 1;
        }
    }

    /// The current player gives up: their hand is emptied, the game ends, and
    /// it goes to the other player.
    fn player_folds(&mut self)
        ensures
            final(self)@ == old(self)@.after_fold(),
    {
        let playerid = self.get_current_player();
        if playerid == 1 {
            self.player1hand = Vec::new();
            self.folded = Some(1);
        } else {
            self.player2hand = Vec::new();
            self.folded = Some(2);
        }
        self.roundnumber = 4;
    }

    /// The player the game waits for.
    fn get_current_player(&self) -> (p: u8)
        ensures
            p == self@.current_player(),
    {
        if self.hasdealergone {
            if self.dealer == 1 {
                2
            } else {
                1
            }
        } else {
            self.dealer
        }
    }

    /// Whether both showdown hands can be ranked.
    fn is_rankable(&self) -> (b: bool)
        ensures
            b == self@.rankable(),
    {
        let mut player1cards: Vec<(u8, u8)> = Vec::new();
        push_poker_indices(&mut player1cards, &self.player1hand);
        push_poker_indices(&mut player1cards, &self.river);
        let mut player2cards: Vec<(u8, u8)> = Vec::new();
        push_poker_indices(&mut player2cards, &self.player2hand);
        push_poker_indices(&mut player2cards, &self.river);
        assert(player1cards@ =~= showdown_cards(self@.player1hand, self@.river));
        assert(player2cards@ =~= showdown_cards(self@.player2hand, self@.river));
        is_rankable_hand(&player1cards) && is_rankable_hand(&player2cards)
    }

    /// The winner once the game is over: the other player if one folded, else
    /// by comparing the two showdown hands.
    fn get_winner(&self) -> (w: Option<u8>)
        requires
            self@.at_showdown() ==> self@.rankable(),
        ensures
            w == self@.winner(),
    {
        if self.roundnumber >= 4 {
            if let Some(folder) = self.folded {
                return Some(if folder == 1 { 2 } else { 1 });
            }
            let mut player1cards: Vec<(u8, u8)> = Vec::new();
            push_poker_indices(&mut player1cards, &self.player1hand);
            push_poker_indices(&mut player1cards, &self.river);
            let mut player2cards: Vec<(u8, u8)> = Vec::new();
            push_poker_indices(&mut player2cards, &self.player2hand);
            push_poker_indices(&mut player2cards, &self.river);
            assert(player1cards@ =~= showdown_cards(self@.player1hand, self@.river));
            assert(player2cards@ =~= showdown_cards(self@.player2hand, self@.river));
            let score1 = rank_poker_hand(&player1cards);
            let score2 = rank_poker_hand(&player2cards);
            return Some(showdown_winner(score1, score2));
        }
        None
    }

    /// The ids of the cards in the game: player 1's, player 2's, the river's.
    fn get_card_ids(&self) -> (ids: Vec<u16>)
        ensures
            ids@ == self@.card_ids(),
    {
        let mut toreturn: Vec<u16> = Vec::new();
        push_ids(&mut toreturn, &self.player1hand);
        push_ids(&mut toreturn, &self.player2hand);
        push_ids(&mut toreturn, &self.river);
        toreturn
    }

    /// The field a card of the game is in, its position there and the field's size.
    fn where_is_card(&self, cardid: u16) -> (r: (u8, u8, u8))
        requires
            self@.wf(),
            self@.card_ids().contains(cardid),
        ensures
            self@.location(cardid, r),
    {
        if vec_has_id(&self.player1hand, cardid) {
            let pos = find_position(&self.player1hand, cardid);
            return (3, pos as u8, self.player1hand.len() as u8);
        }
        if vec_has_id(&self.player2hand, cardid) {
            let pos = find_position(&self.player2hand, cardid);
            return (4, pos as u8, self.player2hand.len() as u8);
        }
        proof {
            let all = self@.card_ids();
            let k = choose|k: int| 0 <= k < all.len() && all[k] == cardid;
            assert(ids_of(self@.river).contains(cardid)) by {
                let a = ids_of(self@.player1hand);
                let b = ids_of(self@.player2hand);
                assert(all == a + b + ids_of(self@.river));
                if k < a.len() {
                    assert(a[k] == cardid);
                } else if k < a.len() + b.len() {
                    assert(b[k - a.len()] == cardid);
                } else {
                    assert(ids_of(self@.river)[k - a.len() - b.len()] == cardid);
                }
            }
        }
        let pos = find_position(&self.river, cardid);
        (5, pos as u8, self.river.len() as u8)
    }
}

/// The winner of a showdown from the two hands' ranks (category, then the
/// number within it): player 1 unless player 2's rank is strictly higher.
pub fn showdown_winner(score1: (u8, u32), score2: (u8, u32)) -> (w: u8)
    ensures
        w == if rank_at_least(score1, score2) { 1u8 } else { 2u8 },
{
    if score1.0 > score2.0 || (score1.0 == score2.0 && score1.1 >= score2.1) {
        1
    } else {
        2
    }
}

/// Whether some pair in `cards` has this id.
fn vec_has_id(cards: &Vec<(u16, Card)>, id: u16) -> (b: bool)
    ensures
        b == ids_of(cards@).contains(id),
{
    let mut i: usize = 0;
    while i < cards.len()
        invariant
            i <= cards.len(),
            forall|j: int| 0 <= j < i ==> ids_of(cards@)[j] != id,
        decreases cards.len() - i,
    {
        if cards[i].0 == id {
            assert(ids_of(cards@)[i as int] == id);
            return true;
        }
        i = i + 1;
    }
    false
}

} // verus!

verus! {

/// What the card manager holds, as plain values.
pub struct CardsInterfaceView {
    pub totalcards: u16,
    pub cards: Map<u16, Card>,
    pub maxhandsize: usize,
    pub hands: Map<u8, Seq<u16>>,
    pub deck: Seq<u16>,
    pub pokergame: Option<PokerGameView>,
}

impl CardsInterfaceView {
    /// A poker game, if there is one, has its usual shape.
    pub open spec fn wf(self) -> bool {
        self.pokergame matches Some(g) ==> g.wf()
    }

    /// The ids of every card that is still somewhere: in the poker game, in a
    /// hand or in the deck.
    pub open spec fn live_ids(self) -> Set<u16> {
        Set::new(
            |id: u16|
                {
                    ||| (self.pokergame matches Some(g) && g.card_ids().contains(id))
                    ||| (exists|p: u8| #[trigger] self.hands.contains_key(p) && self.hands[p].contains(id))
                    ||| self.deck.contains(id)
                },
        )
    }

    /// `new` is `old` with one fresh card, numbered `id` by the card counter,
    /// that starts a poker game; nothing else differs.
    pub open spec fn adds_card(self, new: Self, id: u16) -> bool {
        &&& id == self.totalcards
        &&& new.totalcards == self.totalcards + 1
        &&& new.cards.contains_key(id)
        &&& new.cards[id].spec_effect() == CardEffect::pokergame
        &&& new.cards == self.cards.insert(id, new.cards[id])
        &&& new.maxhandsize == self.maxhandsize
    }

    /// `new` is `old` with the fresh cards `added`, numbered in order from the
    /// card counter, each of them one that starts a poker game.
    pub open spec fn adds_cards(self, new: Self, added: Seq<(u16, Card)>) -> bool {
        &&& new.totalcards == self.totalcards + added.len()
        &&& forall|i: int| 0 <= i < added.len() ==> {
            &&& (#[trigger] added[i]).0 == self.totalcards + i
            &&& added[i].1.spec_effect() == CardEffect::pokergame
            &&& new.cards.contains_key(added[i].0)
            &&& new.cards[added[i].0] == added[i].1
        }
        &&& new.cards.dom() == self.cards.dom().union(
            Set::new(|k: u16| self.totalcards <= k < self.totalcards + added.len()),
        )
        &&& forall|k: u16| #[trigger] self.cards.contains_key(k) && !(self.totalcards <= k < self.totalcards + added.len())
            ==> new.cards[k] == self.cards[k]
    }
}

/// Keeps the cards of the game: those in each player's hand, in the deck and in
/// a poker game, by id.
#[derive(Clone)]
pub struct CardsInterface {
    totalcards: u16,
    cards: HashMap<u16, Card>,
    maxhandsize: usize,
    hands: HashMap<u8, Vec<u16>>,
    deck: Vec<u16>,
    pokergame: Option<PokerGame>,
}

/// The view of an optional poker game.
pub open spec fn poker_view(g: Option<PokerGame>) -> Option<PokerGameView> {
    match g {
        Some(g) => Some(g@),
        None => None,
    }
}

impl View for CardsInterface {
    type V = CardsInterfaceView;

    closed spec fn view(&self) -> CardsInterfaceView {
        CardsInterfaceView {
            totalcards: self.totalcards,
            cards: self.cards@,
            maxhandsize: self.maxhandsize,
            hands: self.hands@.map_values(|h: Vec<u16>| h@),
            deck: self.deck@,
            pokergame: poker_view(self.pokergame),
        }
    }
}

impl CardsInterface {
    /// An empty card manager for players 1 and 2, with hands of at most five.
    pub fn new_two_player() -> (c: CardsInterface)
        ensures
            c@.totalcards == 0,
            c@.cards == Map::<u16, Card>::empty(),
            c@.maxhandsize == 5,
            c@.hands == map![1u8 => Seq::<u16>::empty(), 2u8 => Seq::<u16>::empty()],
            c@.deck == Seq::<u16>::empty(),
            c@.pokergame is None,
            c@.wf(),
    {
        let mut hands: HashMap<u8, Vec<u16>> = HashMap::new();
        hands.insert(1, Vec::new());
        hands.insert(2, Vec::new());
        let c = CardsInterface {
            totalcards: 0,
            cards: HashMap::new(),
            hands,
            maxhandsize: 5,
            deck: Vec::new(),
            pokergame: None,
        };
        assert(c@.hands =~= map![1u8 => Seq::<u16>::empty(), 2u8 => Seq::<u16>::empty()]);
        c
    }

    /// Creates a random card under the next id and returns the id.
    fn add_random_card_to_game(&mut self) -> (id: u16)
        requires
            old(self)@.totalcards < u16::MAX,
        ensures
            old(self)@.adds_card(final(self)@, id),
            final(self)@.hands == old(self)@.hands,
            final(self)@.deck == old(self)@.deck,
            final(self)@.pokergame == old(self)@.pokergame,
    {
        let cardid = self.totalcards;
        self.totalcards = self.totalcards + 1;
        let newcard = Card::new_random_card();
        self.cards.insert(cardid, newcard);
        cardid
    }

    /// Creates a random card under the next id and puts it on the deck.
    fn add_random_card_to_deck(&mut self)
        requires
            old(self)@.totalcards < u16::MAX,
        ensures
            old(self)@.adds_card(final(self)@, old(self)@.totalcards),
            final(self)@.hands == old(self)@.hands,
            final(self)@.deck == old(self)@.deck.push(old(self)@.totalcards),
            final(self)@.pokergame == old(self)@.pokergame,
    {
        let cardid = self.totalcards;
        self.totalcards = self.totalcards + 1;
        let newcard = Card::new_random_card();
        self.cards.insert(cardid, newcard);
        self.deck.push(cardid);
    }

    /// A card to be played at once when drawn: it is created in the game, and
    /// the next tick removes it again unless it has been put somewhere.
    pub fn get_joker_card(&mut self) -> (id: u16)
        requires
            old(self)@.totalcards < u16::MAX,
        ensures
            old(self)@.adds_card(final(self)@, id),
            final(self)@.hands == old(self)@.hands,
            final(self)@.deck == old(self)@.deck,
            final(self)@.pokergame == old(self)@.pokergame,
    {
        self.add_random_card_to_game()
    }

    /// How much this player has in the pool of the poker game: what they may
    /// owe. Player 1's pool for player 1, player 2's for anyone else, 0 with no game.
    pub fn pool_debt_of_player(&self, playerid: &u8) -> (d: u8)
        ensures
            d == match self@.pokergame {
                Some(g) => if *playerid == 1 { g.player1pool } else { g.player2pool },
                None => 0u8,
            },
    {
        if let Some(pokergame) = &self.pokergame {
            if *playerid == 1 {
                return pokergame.player1pool;
            } else {
                return pokergame.player2pool;
            }
        }
        0
    }

    /// Whether a poker game is going on.
    pub fn is_pokergame_ongoing(&self) -> (b: bool)
        ensures
            b == self@.pokergame is Some,
    {
        self.pokergame.is_some()
    }

    /// If a poker game is going on and this player may act in it now, what it
    /// costs them to check.
    pub fn pokergame_options(&self, playerid: u8) -> (r: Option<u8>)
        ensures
            r == match self@.pokergame {
                Some(g) => g.options(playerid),
                None => None,
            },
    {
        if let Some(pokergame) = &self.pokergame {
            return pokergame.can_player_act(playerid);
        }
        None
    }

    /// The player whose turn it is in the poker game checks.
    pub fn player_checks(&mut self)
        requires
            old(self)@.pokergame matches Some(g) && (g.current_player() != g.dealer ==> g.roundnumber < u32::MAX),
        ensures
            ({
                let g = old(self)@.pokergame->Some_0;
                final(self)@.pokergame == Some(
                    (if g.current_player() == 1 {
                        PokerGameView { player1pool: g.player2pool, ..g }
                    } else {
                        PokerGameView { player2pool: g.player1pool, ..g }
                    }).after_move(),
                )
            }),
            final(self)@.cards == old(self)@.cards,
            final(self)@.hands == old(self)@.hands,
            final(self)@.deck == old(self)@.deck,
            final(self)@.totalcards == old(self)@.totalcards,
            final(self)@.maxhandsize == old(self)@.maxhandsize,
    {
        let mut g = self.pokergame.take().unwrap();
        g.player_checks();
        self.pokergame = Some(g);
    }

    /// The player whose turn it is in the poker game raises by `amount`.
    pub fn player_raises(&mut self, amount: u8)
        requires
            old(self)@.pokergame matches Some(g) && {
                &&& g.current_player() == 1 ==> g.player1pool + amount <= u8::MAX
                &&& g.current_player() != 1 ==> g.player2pool + amount <= u8::MAX
                &&& g.current_player() != g.dealer ==> g.roundnumber < u32::MAX
            },
        ensures
            ({
                let g = old(self)@.pokergame->Some_0;
                final(self)@.pokergame == Some(
                    (if g.current_player() == 1 {
                        PokerGameView { player1pool: (g.player1pool + amount) as u8, ..g }
                    } else {
                        PokerGameView { player2pool: (g.player2pool + amount) as u8, ..g }
                    }).after_move(),
                )
            }),
            final(self)@.cards == old(self)@.cards,
            final(self)@.hands == old(self)@.hands,
            final(self)@.deck == old(self)@.deck,
            final(self)@.totalcards == old(self)@.totalcards,
            final(self)@.maxhandsize == old(self)@.maxhandsize,
    {
        let mut g = self.pokergame.take().unwrap();
        g.player_raises(amount);
        self.pokergame = Some(g);
    }

    /// The player whose turn it is in the poker game folds, which ends it: the
    /// other player wins it.
    pub fn player_folds(&mut self)
        requires
            old(self)@.pokergame is Some,
        ensures
            ({
                let g = old(self)@.pokergame->Some_0;
                final(self)@.pokergame == Some(g.after_fold())
            }),
            final(self)@.cards == old(self)@.cards,
            final(self)@.hands == old(self)@.hands,
            final(self)@.deck == old(self)@.deck,
            final(self)@.totalcards == old(self)@.totalcards,
            final(self)@.maxhandsize == old(self)@.maxhandsize,
    {
        let mut g = self.pokergame.take().unwrap();
        g.player_folds();
        self.pokergame = Some(g);
    }

    /// The player draws the top card of the deck into their hand and gets its
    /// id; an empty deck first gets a new random card.
    pub fn draw_card(&mut self, playerid: u8) -> (id: u16)
        requires
            old(self)@.hands.contains_key(playerid),
            old(self)@.deck.len() == 0 ==> old(self)@.totalcards < u16::MAX,
        ensures
            old(self)@.deck.len() > 0 ==> {
                &&& id == old(self)@.deck.last()
                &&& final(self)@.deck == old(self)@.deck.drop_last()
                &&& final(self)@.cards == old(self)@.cards
                &&& final(self)@.totalcards == old(self)@.totalcards
            },
            old(self)@.deck.len() == 0 ==> {
                &&& old(self)@.adds_card(final(self)@, id)
                &&& final(self)@.deck == Seq::<u16>::empty()
            },
            final(self)@.hands == old(self)@.hands.insert(playerid, old(self)@.hands[playerid].push(id)),
            final(self)@.hands[playerid].contains(id),
            final(self)@.pokergame == old(self)@.pokergame,
            final(self)@.maxhandsize == old(self)@.maxhandsize,
    {
        if self.deck.is_empty() {
            self.add_random_card_to_deck();
        }
        let cardid = self.deck.pop().unwrap();
        let mut hand = self.hands.remove(&playerid).unwrap();
        hand.push(cardid);
        self.hands.insert(playerid, hand);
        assert(self@.hands =~= old(self)@.hands.insert(playerid, old(self)@.hands[playerid].push(cardid)));
        assert(self@.hands[playerid][self@.hands[playerid].len() - 1] == cardid);
        cardid
    }

    /// Whether a card with this id exists.
    pub fn does_card_exist(&self, cardid: u16) -> (b: bool)
        ensures
            b == self@.cards.contains_key(cardid),
    {
        self.cards.contains_key(&cardid)
    }

    /// The card with this id, which must exist.
    pub fn get_card_unsafe(&self, cardid: u16) -> (c: Card)
        requires
            self@.cards.contains_key(cardid),
        ensures
            c == self@.cards[cardid],
    {
        *self.cards.get(&cardid).unwrap()
    }

    /// The ids of all existing cards, each once, in no set order.
    pub fn get_all_card_ids(&self) -> (ids: Vec<u16>)
        ensures
            ids@.to_set() == self@.cards.dom(),
            ids@.no_duplicates(),
    {
        let mut toreturn: Vec<u16> = Vec::new();
        let ghost keys = vstd::std_specs::iter::IteratorSpec::remaining(&vstd::std_specs::hash::spec_keys_iter(&self.cards));
        for cardid in it: self.cards.keys()
            invariant
                it.seq() == keys,
                toreturn@ == keys.take(it.index()).map_values(|k: &u16| *k),
        {
            toreturn.push(*cardid);
        }
        assert(toreturn@ =~= keys.unref());
        toreturn
    }

    /// Whether the card is in this player's hand.
    pub fn does_player_own_card(&self, playerid: u8, cardid: u16) -> (b: bool)
        requires
            self@.hands.contains_key(playerid),
        ensures
            b == self@.hands[playerid].contains(cardid),
    {
        let hand = self.hands.get(&playerid).unwrap();
        let mut i: usize = 0;
        while i < hand.len()
            invariant
                i <= hand.len(),
                hand@ == self@.hands[playerid],
                forall|j: int| 0 <= j < i ==> hand@[j] != cardid,
            decreases hand.len() - i,
        {
            if hand[i] == cardid {
                return true;
            }
            i = i + 1;
        }
        false
    }

    /// Where the card is. In a player's hand: the player's id, its position
    /// there counted from 1 and the hand's size. Otherwise in the poker game:
    /// see `PokerGameView::location`.
    pub fn where_is_card(&self, cardid: u16) -> (r: (u8, u8, u8))
        requires
            self@.wf(),
            forall|p: u8| #[trigger] self@.hands.contains_key(p) ==> self@.hands[p].len() <= 255,
            (exists|p: u8| #[trigger] self@.hands.contains_key(p) && self@.hands[p].contains(cardid))
                || (self@.pokergame matches Some(g) && g.card_ids().contains(cardid)),
        ensures
            (exists|p: u8| #[trigger] self@.hands.contains_key(p) && self@.hands[p].contains(cardid)) ==> {
                &&& self@.hands.contains_key(r.0)
                &&& first_position(self@.hands[r.0], cardid, r.1 - 1)
                &&& r.2 == self@.hands[r.0].len()
            },
            !(exists|p: u8| #[trigger] self@.hands.contains_key(p) && self@.hands[p].contains(cardid))
                ==> self@.pokergame->Some_0.location(cardid, r),
    {
        let ghost entries = vstd::std_specs::iter::IteratorSpec::remaining(
            &vstd::std_specs::hash::spec_hash_map_iter(&self.hands),
        );
        for (playerid, hand) in it: self.hands.iter()
            invariant
                it.seq() == entries,
                forall|p: u8| #[trigger] self@.hands.contains_key(p) ==> self@.hands[p].len() <= 255,
                forall|i: int| 0 <= i < it.index() ==> !(#[trigger] entries[i]).1@.contains(cardid),
        {
            proof {
                assert(entries[it.index()] == (playerid, hand));
                assert(self.hands@.contains_key(*playerid));
                assert(self@.hands.contains_key(*playerid));
                assert(self@.hands[*playerid] == hand@);
                assert(hand@.len() <= 255);
            }
            let fieldsize = hand.len() as u8;
            let mut curcardpos: u8 = 0;
            let mut i: usize = 0;
            while i < hand.len()
                invariant
                    self@.hands.contains_key(*playerid),
                    self@.hands[*playerid] == hand@,
                    fieldsize == hand.len(),
                    i <= hand.len() <= 255,
                    curcardpos == i,
                    forall|j: int| 0 <= j < i ==> hand@[j] != cardid,
                decreases hand.len() - i,
            {
                curcardpos = curcardpos + 1;
                if hand[i] == cardid {
                    assert(self@.hands[*playerid][i as int] == cardid);
                    assert(self@.hands.contains_key(*playerid) && self@.hands[*playerid].contains(cardid));
                    return (*playerid, curcardpos, fieldsize);
                }
                i = i + 1;
            }
        }
        proof {
            assert forall|p: u8| #[trigger] self@.hands.contains_key(p) implies !self@.hands[p].contains(cardid) by {
                assert(entries.contains((&p, &self.hands@[p])));
                let i = choose|i: int| 0 <= i < entries.len() && entries[i] == (&p, &self.hands@[p]);
                assert(!entries[i].1@.contains(cardid));
            }
        }
        match &self.pokergame {
            Some(g) => g.where_is_card(cardid),
            None => (0, 0, 0),
        }
    }

    /// Takes the card out of this player's hand, wherever it is there, and out
    /// of the game.
    pub fn remove_card_from_game(&mut self, playerid: u8, cardid: u16)
        requires
            old(self)@.hands.contains_key(playerid),
        ensures
            final(self)@.hands == old(self)@.hands.insert(
                playerid,
                old(self)@.hands[playerid].filter(|x: u16| x != cardid),
            ),
            final(self)@.cards == old(self)@.cards.remove(cardid),
            !final(self)@.cards.contains_key(cardid),
            !final(self)@.hands[playerid].contains(cardid),
            final(self)@.deck == old(self)@.deck,
            final(self)@.pokergame == old(self)@.pokergame,
            final(self)@.totalcards == old(self)@.totalcards,
            final(self)@.maxhandsize == old(self)@.maxhandsize,
    {
        let hand = self.hands.remove(&playerid).unwrap();
        let mut kept: Vec<u16> = Vec::new();
        let mut i: usize = 0;
        while i < hand.len()
            invariant
                i <= hand.len(),
                kept@ == hand@.take(i as int).filter(|x: u16| x != cardid),
            decreases hand.len() - i,
        {
            proof {
                reveal_with_fuel(Seq::<u16>::filter, 1);
                assert(hand@.take(i + 1).drop_last() =~= hand@.take(i as int));
            }
            if hand[i] != cardid {
                kept.push(hand[i]);
            }
            i = i + 1;
        }
        assert(hand@.take(i as int) =~= hand@);
        self.hands.insert(playerid, kept);
        self.cards.remove(&cardid);
        assert(self@.hands =~= old(self)@.hands.insert(
            playerid,
            old(self)@.hands[playerid].filter(|x: u16| x != cardid),
        ));
        proof {
            let kept = old(self)@.hands[playerid].filter(|x: u16| x != cardid);
            if kept.contains(cardid) {
                let j = choose|j: int| 0 <= j < kept.len() && kept[j] == cardid;
                old(self)@.hands[playerid].lemma_filter_pred(|x: u16| x != cardid, j);
            }
        }
    }

    /// Creates `n` random cards under the next ids and returns them in order.
    fn add_cards(&mut self, n: usize) -> (added: Vec<(u16, Card)>)
        requires
            old(self)@.totalcards + n <= u16::MAX,
        ensures
            old(self)@.adds_cards(final(self)@, added@),
            added@.len() == n,
            final(self)@.hands == old(self)@.hands,
            final(self)@.deck == old(self)@.deck,
            final(self)@.pokergame == old(self)@.pokergame,
            final(self)@.maxhandsize == old(self)@.maxhandsize,
    {
        let mut added: Vec<(u16, Card)> = Vec::new();
        let mut x: usize = 0;
        assert(old(self)@.cards.dom() =~= old(self)@.cards.dom().union(
            Set::new(|k: u16| old(self)@.totalcards <= k < old(self)@.totalcards + 0),
        ));
        while x < n
            invariant
                x <= n,
                old(self)@.totalcards + n <= u16::MAX,
                added@.len() == x,
                old(self)@.adds_cards(self@, added@),
                self@.hands == old(self)@.hands,
                self@.deck == old(self)@.deck,
                self@.pokergame == old(self)@.pokergame,
                self@.maxhandsize == old(self)@.maxhandsize,
            decreases n - x,
        {
            let ghost before = self@;
            let ghost old_added = added@;
            let cardid = self.add_random_card_to_game();
            let card = *self.cards.get(&cardid).unwrap();
            added.push((cardid, card));
            x = x + 1;
            proof {
                let o = old(self)@;
                assert(self@.cards.dom() =~= o.cards.dom().union(
                    Set::new(|k: u16| o.totalcards <= k < o.totalcards + added@.len()),
                ));
                assert forall|i: int| 0 <= i < added@.len() implies {
                    &&& (#[trigger] added@[i]).0 == o.totalcards + i
                    &&& added@[i].1.spec_effect() == CardEffect::pokergame
                    &&& self@.cards.contains_key(added@[i].0)
                    &&& self@.cards[added@[i].0] == added@[i].1
                } by {
                    if i < added@.len() - 1 {
                        assert(added@[i] == old_added[i]);
                        assert(before.cards.contains_key(added@[i].0));
                    }
                }
                assert forall|k: u16| #[trigger] o.cards.contains_key(k) && !(o.totalcards <= k < o.totalcards + added@.len())
                    implies self@.cards[k] == o.cards[k] by {
                    assert(before.cards.dom().contains(k));
                    assert(before.cards.contains_key(k));
                }
            }
        }
        added
    }

    /// Starts a poker game between players 1 and 2 on nine new random cards:
    /// the first five make the river, the next two player 1's hand, the last
    /// two player 2's.
    pub fn start_poker_game(&mut self, player1: u8, player2: u8)
        requires
            old(self)@.totalcards + 9 <= u16::MAX,
        ensures
            exists|added: Seq<(u16, Card)>|
                {
                    &&& #[trigger] old(self)@.adds_cards(final(self)@, added)
                    &&& added.len() == 9
                    &&& final(self)@.pokergame == Some(
                        PokerGameView {
                            player1pool: 1,
                            player2pool: 2,
                            player1hand: added.subrange(5, 7),
                            player2hand: added.subrange(7, 9),
                            river: added.subrange(0, 5),
                            dealer: 1,
                            hasdealergone: false,
                            roundnumber: 0,
                            folded: None,
                        },
                    )
                },
            final(self)@.hands == old(self)@.hands,
            final(self)@.deck == old(self)@.deck,
            final(self)@.maxhandsize == old(self)@.maxhandsize,
            final(self)@.wf(),
    {
        let ghost start = self@;
        let river = self.add_cards(5);
        let ghost mid1 = self@;
        let player1hand = self.add_cards(2);
        let ghost mid2 = self@;
        let player2hand = self.add_cards(2);
        let ghost added = river@ + player1hand@ + player2hand@;
        proof {
            lemma_adds_cards_chain(start, mid1, mid2, self@, river@, player1hand@, player2hand@);
            assert(added.subrange(0, 5) =~= river@);
            assert(added.subrange(5, 7) =~= player1hand@);
            assert(added.subrange(7, 9) =~= player2hand@);
        }
        self.pokergame = Some(PokerGame::new(river, player1hand, player2hand));
        assert(start.adds_cards(self@, added));
    }

    /// Whether `tick` can settle the poker game: there is none, it is not over,
    /// a player folded, or both of its showdown hands can be ranked.
    pub fn is_showdown_rankable(&self) -> (b: bool)
        ensures
            b == (self@.pokergame matches Some(g) ==> (g.at_showdown() ==> g.rankable())),
    {
        match &self.pokergame {
            Some(pokergame) => pokergame.roundnumber < 4 || pokergame.folded.is_some() || pokergame.is_rankable(),
            None => true,
        }
    }

    /// Ends a finished poker game and returns its winner, then drops every card
    /// that is no longer in the game, a hand or the deck.
    pub fn tick(&mut self) -> (winner: Option<u8>)
        requires
            old(self)@.wf(),
            old(self)@.pokergame matches Some(g) ==> (g.at_showdown() ==> g.rankable()),
        ensures
            winner == match old(self)@.pokergame {
                Some(g) => g.winner(),
                None => None,
            },
            final(self)@.pokergame == (if winner is Some { None } else { old(self)@.pokergame }),
            final(self)@.cards == old(self)@.cards.restrict(final(self)@.live_ids()),
            forall|id: u16| #[trigger] final(self)@.cards.contains_key(id) ==> final(self)@.live_ids().contains(id),
            final(self)@.hands == old(self)@.hands,
            final(self)@.deck == old(self)@.deck,
            final(self)@.totalcards == old(self)@.totalcards,
            final(self)@.maxhandsize == old(self)@.maxhandsize,
            final(self)@.wf(),
    {
        let mut toreturn: Option<u8> = None;
        if let Some(pokergame) = &self.pokergame {
            toreturn = pokergame.get_winner();
        }
        if toreturn.is_some() {
            self.pokergame = None;
        }
        self.remove_nonexisting_cards();
        toreturn
    }

    /// Drops every card that is not in the poker game, a hand or the deck.
    fn remove_nonexisting_cards(&mut self)
        ensures
            final(self)@.cards == old(self)@.cards.restrict(old(self)@.live_ids()),
            final(self)@.hands == old(self)@.hands,
            final(self)@.deck == old(self)@.deck,
            final(self)@.pokergame == old(self)@.pokergame,
            final(self)@.totalcards == old(self)@.totalcards,
            final(self)@.maxhandsize == old(self)@.maxhandsize,
    {
        let ghost live = self@.live_ids();
        let mut existing: HashSet<u16> = HashSet::new();
        let mut pokerids: Vec<u16> = Vec::new();
        if let Some(pokergame) = &self.pokergame {
            pokerids = pokergame.get_card_ids();
        }
        insert_all(&mut existing, &pokerids);
        let ghost entries = vstd::std_specs::iter::IteratorSpec::remaining(
            &vstd::std_specs::hash::spec_hash_map_iter(&self.hands),
        );
        for (_playerid, hand) in it: self.hands.iter()
            invariant
                it.seq() == entries,
                forall|id: u16|
                    #[trigger] existing@.contains(id) <==> (pokerids@.contains(id) || exists|i: int|
                        0 <= i < it.index() && (#[trigger] entries[i]).1@.contains(id)),
        {
            let ghost before = existing@;
            insert_all(&mut existing, hand);
            proof {
                assert forall|id: u16|
                    #[trigger] existing@.contains(id) <==> (pokerids@.contains(id) || exists|i: int|
                        0 <= i < it.index() + 1 && (#[trigger] entries[i]).1@.contains(id)) by {
                    if existing@.contains(id) && !before.contains(id) {
                        assert(entries[it.index()].1@.contains(id));
                    }
                    if exists|i: int| 0 <= i < it.index() + 1 && (#[trigger] entries[i]).1@.contains(id) {
                        let i = choose|i: int| 0 <= i < it.index() + 1 && (#[trigger] entries[i]).1@.contains(id);
                        if i == it.index() {
                            assert(hand@.contains(id));
                        }
                    }
                }
            }
        }
        insert_all(&mut existing, &self.deck);
        proof {
            assert forall|id: u16| #[trigger] existing@.contains(id) <==> live.contains(id) by {
                let hs = self@.hands;
                if exists|i: int| 0 <= i < entries.len() && (#[trigger] entries[i]).1@.contains(id) {
                    let i = choose|i: int| 0 <= i < entries.len() && (#[trigger] entries[i]).1@.contains(id);
                    let p = *entries[i].0;
                    assert(self.hands@.contains_key(p));
                    assert(hs.contains_key(p) && hs[p].contains(id));
                }
                if exists|p: u8| #[trigger] hs.contains_key(p) && hs[p].contains(id) {
                    let p = choose|p: u8| #[trigger] hs.contains_key(p) && hs[p].contains(id);
                    assert(entries.contains((&p, &self.hands@[p])));
                    let i = choose|i: int| 0 <= i < entries.len() && entries[i] == (&p, &self.hands@[p]);
                    assert(entries[i].1@.contains(id));
                }
                match self@.pokergame {
                    Some(g) => { assert(pokerids@ == g.card_ids()); },
                    None => { assert(pokerids@.len() == 0); },
                }
            }
        }
        let keys = self.get_all_card_ids();
        let ghost oldcards = self@.cards;
        let mut i: usize = 0;
        while i < keys.len()
            invariant
                i <= keys.len(),
                keys@.to_set() == oldcards.dom(),
                keys@.no_duplicates(),
                forall|id: u16| #[trigger] existing@.contains(id) <==> live.contains(id),
                self@.hands == old(self)@.hands,
                self@.deck == old(self)@.deck,
                self@.pokergame == old(self)@.pokergame,
                self@.totalcards == old(self)@.totalcards,
                self@.maxhandsize == old(self)@.maxhandsize,
                oldcards == old(self)@.cards,
                forall|k: u16| #[trigger] self@.cards.contains_key(k) <==> (oldcards.contains_key(k) && (
                    live.contains(k) || !keys@.take(i as int).contains(k))),
                forall|k: u16| #[trigger] self@.cards.contains_key(k) ==> self@.cards[k] == oldcards[k],
            decreases keys.len() - i,
        {
            let k = keys[i];
            proof {
                assert(keys@.take(i + 1) =~= keys@.take(i as int).push(k));
            }
            let ghost before = self@.cards;
            if !existing.contains(&k) {
                self.cards.remove(&k);
            }
            i = i + 1;
            proof {
                let cur = keys@.take(i as int);
                let prev = keys@.take(i - 1);
                assert forall|k2: u16| #[trigger] self@.cards.contains_key(k2) <==> (oldcards.contains_key(k2) && (
                    live.contains(k2) || !cur.contains(k2))) by {
                    if k2 != k {
                        if cur.contains(k2) {
                            let j = choose|j: int| 0 <= j < cur.len() && cur[j] == k2;
                            assert(prev[j] == k2);
                        }
                        if prev.contains(k2) {
                            let j = choose|j: int| 0 <= j < prev.len() && prev[j] == k2;
                            assert(cur[j] == k2);
                        }
                        assert(before.contains_key(k2) == self@.cards.contains_key(k2));
                    } else {
                        assert(cur[i - 1] == k);
                        assert(!prev.contains(k)) by {
                            if prev.contains(k) {
                                let j = choose|j: int| 0 <= j < prev.len() && prev[j] == k;
                                assert(keys@[j] == keys@[i - 1]);
                            }
                        }
                        assert(keys@.to_set().contains(k));
                    }
                }
            }
        }
        proof {
            assert(keys@.take(i as int) =~= keys@);
            assert forall|k: u16| oldcards.contains_key(k) implies keys@.contains(k) by {
                assert(keys@.to_set().contains(k));
            }
        }
        assert(self@.cards =~= oldcards.restrict(live));
    }
}

/// Puts every element of `v` into `set`.
fn insert_all(set: &mut HashSet<u16>, v: &Vec<u16>)
    ensures
        forall|id: u16| #[trigger] final(set)@.contains(id) <==> (old(set)@.contains(id) || v@.contains(id)),
{
    let mut i: usize = 0;
    while i < v.len()
        invariant
            i <= v.len(),
            forall|id: u16| #[trigger] set@.contains(id) <==> (old(set)@.contains(id) || v@.take(i as int).contains(id)),
        decreases v.len() - i,
    {
        proof {
            assert(v@.take(i + 1) =~= v@.take(i as int).push(v@[i as int]));
        }
        let ghost before = set@;
        set.insert(v[i]);
        i = i + 1;
        proof {
            let cur = v@.take(i as int);
            let prev = v@.take(i - 1);
            assert forall|id: u16| #[trigger] set@.contains(id) <==> (old(set)@.contains(id) || cur.contains(id)) by {
                if cur.contains(id) && id != v@[i - 1] {
                    let j = choose|j: int| 0 <= j < cur.len() && cur[j] == id;
                    assert(prev[j] == id);
                }
                if id == v@[i - 1] {
                    assert(cur[i - 1] == id);
                }
                if prev.contains(id) {
                    let j = choose|j: int| 0 <= j < prev.len() && prev[j] == id;
                    assert(cur[j] == id);
                }
            }
        }
    }
    assert(v@.take(i as int) =~= v@);
}

/// Adding fresh cards in three batches is adding them all at once.
proof fn lemma_adds_cards_chain(
    a: CardsInterfaceView,
    b: CardsInterfaceView,
    c: CardsInterfaceView,
    d: CardsInterfaceView,
    s1: Seq<(u16, Card)>,
    s2: Seq<(u16, Card)>,
    s3: Seq<(u16, Card)>,
)
    requires
        a.adds_cards(b, s1),
        b.adds_cards(c, s2),
        c.adds_cards(d, s3),
    ensures
        a.adds_cards(d, s1 + s2 + s3),
{
    let s = s1 + s2 + s3;
    assert forall|i: int| 0 <= i < s.len() implies #[trigger] s[i].0 == a.totalcards + i
        && s[i].1.spec_effect() == CardEffect::pokergame && d.cards.contains_key(s[i].0) && d.cards[s[i].0] == s[i].1 by {
        if i < s1.len() {
            assert(s[i] == s1[i]);
            assert(!(c.totalcards <= s[i].0 < c.totalcards + s3.len()));
            assert(!(b.totalcards <= s[i].0 < b.totalcards + s2.len()));
        } else if i < s1.len() + s2.len() {
            assert(s[i] == s2[i - s1.len()]);
            assert(!(c.totalcards <= s[i].0 < c.totalcards + s3.len()));
        } else {
            assert(s[i] == s3[i - s1.len() - s2.len()]);
        }
    }
    assert(d.cards.dom() =~= a.cards.dom().union(Set::new(|k: u16| a.totalcards <= k < a.totalcards + s.len())));
    assert forall|k: u16| #[trigger] a.cards.contains_key(k) && !(a.totalcards <= k < a.totalcards + s.len())
        implies d.cards[k] == a.cards[k] by {
        assert(b.cards.dom().contains(k));
        assert(b.cards.contains_key(k));
        assert(c.cards.dom().contains(k));
        assert(c.cards.contains_key(k));
    }
}

} // verus!
