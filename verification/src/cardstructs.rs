use vstd::prelude::*;
use crate::rng::random_below;

verus! {

/// The face value of a card.
#[allow(non_camel_case_types)]
#[derive(Clone, Copy, Debug, PartialEq, Eq, Hash, Structural)]
pub enum CardValue {
    ace,
    two,
    three,
    four,
    five,
    six,
    seven,
    eight,
    nine,
    ten,
    jack,
    queen,
    king,
}

/// What playing a card does. The first three are joker effects, which can be
/// played on the board; the deck holds only those.
#[allow(non_camel_case_types)]
#[derive(Clone, Copy, Debug, PartialEq, Eq, Hash, Structural)]
pub enum CardEffect {
    backtobackturns,
    halvetimeleft,
    /// The game takes the rules of pool.
    makepoolgame,
    /// Removes a square from the board.
    dropsquare,
    /// Raises a square so that no piece can pass it.
    raisesquare,
    noeffect,
}

/// The suit of a card.
#[allow(non_camel_case_types)]
#[derive(Clone, Copy, Debug, PartialEq, Eq, Hash, Structural)]
pub enum CardSuit {
    diamonds,
    clubs,
    hearts,
    spades,
}

/// The number of a face value: ace 1, two 2, up to king 13.
pub open spec fn value_number(v: CardValue) -> u16 {
    match v {
        CardValue::ace => 1,
        CardValue::two => 2,
        CardValue::three => 3,
        CardValue::four => 4,
        CardValue::five => 5,
        CardValue::six => 6,
        CardValue::seven => 7,
        CardValue::eight => 8,
        CardValue::nine => 9,
        CardValue::ten => 10,
        CardValue::jack => 11,
        CardValue::queen => 12,
        CardValue::king => 13,
    }
}

/// The face value with this index in `ace, two, ..., king`.
pub open spec fn value_of_index(n: int) -> CardValue {
    if n == 0 { CardValue::ace }
    else if n == 1 { CardValue::two }
    else if n == 2 { CardValue::three }
    else if n == 3 { CardValue::four }
    else if n == 4 { CardValue::five }
    else if n == 5 { CardValue::six }
    else if n == 6 { CardValue::seven }
    else if n == 7 { CardValue::eight }
    else if n == 8 { CardValue::nine }
    else if n == 9 { CardValue::ten }
    else if n == 10 { CardValue::jack }
    else if n == 11 { CardValue::queen }
    else { CardValue::king }
}

/// The suit with this index in `diamonds, clubs, hearts, spades`.
pub open spec fn suit_of_index(n: int) -> CardSuit {
    if n == 0 { CardSuit::diamonds }
    else if n == 1 { CardSuit::clubs }
    else if n == 2 { CardSuit::hearts }
    else { CardSuit::spades }
}

/// The effects of joker cards.
pub open spec fn joker_effects() -> Seq<CardEffect> {
    seq![CardEffect::backtobackturns, CardEffect::halvetimeleft, CardEffect::makepoolgame]
}

/// The effects of cards that can be played from the hand.
pub open spec fn hand_effects() -> Seq<CardEffect> {
    seq![
        CardEffect::backtobackturns,
        CardEffect::halvetimeleft,
        CardEffect::makepoolgame,
        CardEffect::raisesquare,
        CardEffect::dropsquare,
    ]
}

/// A playing card with an effect.
#[derive(Clone, Copy, Debug, PartialEq, Eq, Hash, Structural)]
pub struct Card {
    value: CardValue,
    suit: CardSuit,
    pub effect: CardEffect,
}

/// The manager of the card data of a game.
#[derive(Clone, Copy)]
pub struct CardsInterface {}

impl CardsInterface {
    /// A random effect playable on the board: that of a random joker card.
    pub fn get_joker_card_effect() -> (e: CardEffect)
        ensures
            joker_effects().contains(e),
    {
        Card::new_random_joker_card().effect
    }
}

impl Card {
    pub closed spec fn spec_value(self) -> CardValue {
        self.value
    }

    pub closed spec fn spec_suit(self) -> CardSuit {
        self.suit
    }

    pub closed spec fn spec_effect(self) -> CardEffect {
        self.effect
    }

    /// A card with these parts.
    pub fn new(value: CardValue, suit: CardSuit, effect: CardEffect) -> (c: Card)
        ensures
            c.spec_value() == value,
            c.spec_suit() == suit,
            c.spec_effect() == effect,
    {
        Card { value, suit, effect }
    }

    pub fn is_ace(&self) -> (b: bool)
        ensures
            b == (self.spec_value() == CardValue::ace),
    {
        self.value == CardValue::ace
    }

    /// The blackjack value; an ace has none, because it may count 1 or 11.
    pub fn blackjackvalue(&self) -> (v: u16)
        requires
            self.spec_value() != CardValue::ace,
        ensures
            v == if value_number(self.spec_value()) > 10 { 10 } else { value_number(self.spec_value()) },
    {
        match self.value {
            CardValue::two => 2,
            CardValue::three => 3,
            CardValue::four => 4,
            CardValue::five => 5,
            CardValue::six => 6,
            CardValue::seven => 7,
            CardValue::eight => 8,
            CardValue::nine => 9,
            CardValue::ten => 10,
            CardValue::jack => 10,
            CardValue::queen => 10,
            CardValue::king => 10,
            CardValue::ace => 1,
        }
    }

    /// The number of the face value, 1 to 13.
    pub fn numbervalue(&self) -> (v: u16)
        ensures
            v == value_number(self.spec_value()),
    {
        match self.value {
            CardValue::two => 2,
            CardValue::three => 3,
            CardValue::four => 4,
            CardValue::five => 5,
            CardValue::six => 6,
            CardValue::seven => 7,
            CardValue::eight => 8,
            CardValue::nine => 9,
            CardValue::ten => 10,
            CardValue::jack => 11,
            CardValue::queen => 12,
            CardValue::king => 13,
            CardValue::ace => 1,
        }
    }

    /// The card's rank and suit indices as `rs_poker` numbers them: ranks two
    /// 0 to ace 12, suits spade 0, club 1, heart 2, diamond 3.
    fn get_rs_poker_card(&self) -> (r: (u8, u8))
        ensures
            r.0 == if self.spec_value() == CardValue::ace { 12 } else { value_number(self.spec_value()) - 2 },
            r.1 == match self.spec_suit() {
                CardSuit::spades => 0u8,
                CardSuit::clubs => 1u8,
                CardSuit::hearts => 2u8,
                CardSuit::diamonds => 3u8,
            },
    {
        let value: u8 = match self.value {
            CardValue::ace => 12,
            CardValue::king => 11,
            CardValue::queen => 10,
            CardValue::jack => 9,
            CardValue::ten => 8,
            CardValue::nine => 7,
            CardValue::eight => 6,
            CardValue::seven => 5,
            CardValue::six => 4,
            CardValue::five => 3,
            CardValue::four => 2,
            CardValue::three => 1,
            CardValue::two => 0,
        };
        let suit: u8 = match self.suit {
            CardSuit::clubs => 1,
            CardSuit::diamonds => 3,
            CardSuit::spades => 0,
            CardSuit::hearts => 2,
        };
        (value, suit)
    }

    /// The number of the suit: clubs 0, diamonds 1, hearts 2, spades 3.
    pub fn suitvalue(&self) -> (v: u16)
        ensures
            v == match self.spec_suit() {
                CardSuit::clubs => 0u16,
                CardSuit::diamonds => 1u16,
                CardSuit::hearts => 2u16,
                CardSuit::spades => 3u16,
            },
    {
        if self.suit == CardSuit::clubs {
            0
        } else if self.suit == CardSuit::diamonds {
            1
        } else if self.suit == CardSuit::hearts {
            2
        } else {
            3
        }
    }

    /// A card of random value and suit, with no effect.
    fn new_effectless_card() -> (c: Card)
        ensures
            c.spec_effect() == CardEffect::noeffect,
    {
        let valuenumb = random_below(13);
        let suitnumb = random_below(4);
        Card { value: value_from_index(valuenumb), suit: suit_from_index(suitnumb), effect: CardEffect::noeffect }
    }

    /// A joker card: random value and suit, and a random joker effect.
    pub fn new_random_joker_card() -> (c: Card)
        ensures
            joker_effects().contains(c.spec_effect()),
    {
        let mut effectlesscard = Card::new_effectless_card();
        let mut jokereffects: Vec<CardEffect> = Vec::new();
        jokereffects.push(CardEffect::backtobackturns);
        jokereffects.push(CardEffect::halvetimeleft);
        jokereffects.push(CardEffect::makepoolgame);
        assert(jokereffects@ =~= joker_effects());
        let effectnumb = random_below(jokereffects.len());
        effectlesscard.effect = jokereffects[effectnumb];
        assert(joker_effects()[effectnumb as int] == effectlesscard.effect);
        effectlesscard
    }

    /// A card to play from the hand: random value and suit, and one of the
    /// joker effects or raising or dropping a square.
    pub fn new_random_card() -> (c: Card)
        ensures
            hand_effects().contains(c.spec_effect()),
    {
        let mut effectlesscard = Card::new_effectless_card();
        let mut effects: Vec<CardEffect> = Vec::new();
        effects.push(CardEffect::backtobackturns);
        effects.push(CardEffect::halvetimeleft);
        effects.push(CardEffect::makepoolgame);
        effects.push(CardEffect::raisesquare);
        effects.push(CardEffect::dropsquare);
        assert(effects@ =~= hand_effects());
        let effectnumb = random_below(effects.len());
        effectlesscard.effect = effects[effectnumb];
        assert(hand_effects()[effectnumb as int] == effectlesscard.effect);
        effectlesscard
    }
}

/// The face value with this index in `ace, two, ..., king`.
fn value_from_index(n: usize) -> (v: CardValue)
    requires
        n < 13,
    ensures
        v == value_of_index(n as int),
{
    if n == 0 { CardValue::ace }
    else if n == 1 { CardValue::two }
    else if n == 2 { CardValue::three }
    else if n == 3 { CardValue::four }
    else if n == 4 { CardValue::five }
    else if n == 5 { CardValue::six }
    else if n == 6 { CardValue::seven }
    else if n == 7 { CardValue::eight }
    else if n == 8 { CardValue::nine }
    else if n == 9 { CardValue::ten }
    else if n == 10 { CardValue::jack }
    else if n == 11 { CardValue::queen }
    else { CardValue::king }
}

/// The suit with this index in `diamonds, clubs, hearts, spades`.
fn suit_from_index(n: usize) -> (s: CardSuit)
    requires
        n < 4,
    ensures
        s == suit_of_index(n as int),
{
    if n == 0 { CardSuit::diamonds }
    else if n == 1 { CardSuit::clubs }
    else if n == 2 { CardSuit::hearts }
    else { CardSuit::spades }
}

} // verus!
