use vstd::prelude::*;

verus! {

/// How many cards of a sequence of `(value, suit)` pairs share the given value.
pub open spec fn count_value(cards: Seq<(u8, u8)>, value: u8) -> nat
    decreases cards.len(),
{
    if cards.len() == 0 {
        0
    } else {
        count_value(cards.drop_last(), value) + if cards.last().0 == value { 1nat } else { 0nat }
    }
}

/// A hand that `rs_poker` 1.0 can rank: five to seven cards, values `0..13`
/// (two up to ace) and suits `0..4` (spade, club, heart, diamond), and no value
/// more than four times.
pub open spec fn rankable_hand(cards: Seq<(u8, u8)>) -> bool {
    &&& 5 <= cards.len() <= 7
    &&& forall|i: int| 0 <= i < cards.len() ==> #[trigger] cards[i].0 < 13 && cards[i].1 < 4
    &&& forall|v: u8| count_value(cards, v) <= 4
}

/// A value that no card has is counted zero times.
proof fn lemma_count_value_absent(cards: Seq<(u8, u8)>, value: u8)
    requires
        forall|i: int| 0 <= i < cards.len() ==> #[trigger] cards[i].0 != value,
    ensures
        count_value(cards, value) == 0,
    decreases cards.len(),
{
    if cards.len() > 0 {
        let rest = cards.drop_last();
        assert forall|i: int| 0 <= i < rest.len() implies #[trigger] rest[i].0 != value by {
            assert(rest[i] == cards[i]);
        }
        lemma_count_value_absent(rest, value);
    }
}

/// How many of the cards have the given value.
fn count_of_value(cards: &Vec<(u8, u8)>, value: u8) -> (n: usize)
    ensures
        n == count_value(cards@, value),
{
    let mut n: usize = 0;
    let mut j: usize = 0;
    while j < cards.len()
        invariant
            j <= cards@.len(),
            n == count_value(cards@.take(j as int), value),
            n <= j,
        decreases cards.len() - j,
    {
        proof {
            assert(cards@.take(j + 1).drop_last() =~= cards@.take(j as int));
        }
        if cards[j].0 == value {
            n = n + 1;
        }
        j = j + 1;
    }
    assert(cards@.take(j as int) =~= cards@);
    n
}

/// Whether `rs_poker` can rank the hand (see `rankable_hand`).
pub fn is_rankable_hand(cards: &Vec<(u8, u8)>) -> (b: bool)
    ensures
        b == rankable_hand(cards@),
{
    if cards.len() < 5 || cards.len() > 7 {
        return false;
    }
    let mut i: usize = 0;
    while i < cards.len()
        invariant
            i <= cards@.len(),
            forall|k: int| 0 <= k < i ==> #[trigger] cards@[k].0 < 13 && cards@[k].1 < 4,
        decreases cards.len() - i,
    {
        if cards[i].0 >= 13 || cards[i].1 >= 4 {
            assert(!(cards@[i as int].0 < 13 && cards@[i as int].1 < 4));
            return false;
        }
        i = i + 1;
    }
    let mut v: u8 = 0;
    while v < 13
        invariant
            v <= 13,
            5 <= cards@.len() <= 7,
            forall|k: int| 0 <= k < cards@.len() ==> #[trigger] cards@[k].0 < 13 && cards@[k].1 < 4,
            forall|w: u8| w < v ==> #[trigger] count_value(cards@, w) <= 4,
        decreases 13 - v,
    {
        if count_of_value(cards, v) > 4 {
            return false;
        }
        v = v + 1;
    }
    assert forall|w: u8| #[trigger] count_value(cards@, w) <= 4 by {
        if w >= 13 {
            assert forall|k: int| 0 <= k < cards@.len() implies #[trigger] cards@[k].0 != w by {
                assert(cards@[k].0 < 13);
            }
            lemma_count_value_absent(cards@, w);
        }
    }
    true
}

/// The rank that `rs_poker` gives a hand of `(value, suit)` cards, written as the
/// index of the rank's category (high card 0 up to straight flush 8) and the
/// number that the category carries.
pub uninterp spec fn poker_hand_rank(cards: Seq<(u8, u8)>) -> (u8, u32);

/// The ranks of hands in `rs_poker`.
#[verifier::external_type_specification]
#[verifier::external_body]
pub struct ExPokerRank(rs_poker::core::Rank);

/// `rs_poker`'s rank of a hand.
pub type PokerRank = rs_poker::core::Rank;

/// Ranks the cards with `rs_poker::core::Rankable::rank` (crate version 1.0.0),
/// on a `Vec<rs_poker::core::Card>` built from the given `(value, suit)`
/// indices with `Value::from_u8` and `Suit::from_u8`.
///
/// Claimed of the outside call: the result is `poker_hand_rank` of the cards,
/// with each `Rank` variant mapped to its position in the enum and its payload.
/// The derived order of `Rank` is that of these pairs taken lexicographically.
/// `rank` indexes an array by how often a value occurs and panics past four,
/// so `requires` keeps to hands it documents: five cards or more, at most seven.
#[verifier::external_body]
pub(crate) fn rank_poker_hand(cards: &Vec<(u8, u8)>) -> (r: (u8, u32))
    requires
        rankable_hand(cards@),
    ensures
        r == poker_hand_rank(cards@),
{
    let hand: Vec<rs_poker::core::Card> = cards.iter().map(
        |c| rs_poker::core::Card { value: rs_poker::core::Value::from_u8(c.0), suit: rs_poker::core::Suit::from_u8(c.1) },
    ).collect();
    match rs_poker::core::Rankable::rank(&hand) {
        PokerRank::HighCard(v) => (0, v),
        PokerRank::OnePair(v) => (1, v),
        PokerRank::TwoPair(v) => (2, v),
        PokerRank::ThreeOfAKind(v) => (3, v),
        PokerRank::Straight(v) => (4, v),
        PokerRank::Flush(v) => (5, v),
        PokerRank::FullHouse(v) => (6, v),
        PokerRank::FourOfAKind(v) => (7, v),
        PokerRank::StraightFlush(v) => (8, v),
    }
}

/// Whether rank `a` is at least rank `b` in `rs_poker`'s order.
pub open spec fn rank_at_least(a: (u8, u32), b: (u8, u32)) -> bool {
    a.0 > b.0 || (a.0 == b.0 && a.1 >= b.1)
}

} // verus!
