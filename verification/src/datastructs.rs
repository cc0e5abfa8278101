use vstd::prelude::*;
use vstd::string::StringExecFns;
use crate::rng::random_below;
use crate::text::{decimal, push_decimal};

verus! {

broadcast use {vstd::string::group_string_axioms, vstd::std_specs::hash::group_hash_axioms};

/// What a card does to the game when it is played.
#[derive(Clone, Copy, Debug, PartialEq, Eq, Hash, Structural)]
pub enum CardEffect {
    BackToBackTurns,
    HalveTimeLeft,
    MakePoolGame,
    /// Each turn lasts this many ticks.
    TurnsTimed(u32),
    /// This many squares are dropped from the board.
    RemoveSquares(u32),
    /// This many squares are raised on the board.
    RaiseSquares(u32),
    AddChessPieces,
    AddCheckersPieces,
    /// How many turns until the deck can be drawn from again.
    TurnsUntilDrawAvailable(u32),
    SplitPieceIntoPawns,
    Checkerify,
    Chessify,
    /// Pieces worth more than 1 move as knights too.
    Knight,
    KingsReplaced,
    LossWithoutKing,
    PawnsPromoted,
}

/// The file name of each effect's card picture.
pub open spec fn texture(e: CardEffect) -> Seq<char> {
    match e {
        CardEffect::MakePoolGame => "poolgame.png"@,
        CardEffect::BackToBackTurns => "backtoback.png"@,
        CardEffect::HalveTimeLeft => "halvetimeleft.png"@,
        CardEffect::RaiseSquares(_) => "raisedsquares.png"@,
        CardEffect::RemoveSquares(_) => "droppedsquares.png"@,
        CardEffect::AddChessPieces => "addchesspieces.png"@,
        CardEffect::AddCheckersPieces => "addcheckerspieces.png"@,
        CardEffect::TurnsTimed(_) => "turnstimed.png"@,
        CardEffect::TurnsUntilDrawAvailable(turns) => decimal(turns as nat) + "turnsuntildraw.png"@,
        CardEffect::SplitPieceIntoPawns => "splitpieceintopawns.png"@,
        CardEffect::Checkerify => "checkerify.png"@,
        CardEffect::Knight => "knight.png"@,
        CardEffect::KingsReplaced => "kingsreplaced.png"@,
        CardEffect::LossWithoutKing => "losswithoutking.png"@,
        CardEffect::PawnsPromoted => "pawnspromoted.png"@,
        CardEffect::Chessify => "chessify.png"@,
    }
}

/// The effects a joker card can have.
pub open spec fn joker_effects() -> Seq<CardEffect> {
    seq![
        CardEffect::BackToBackTurns,
        CardEffect::HalveTimeLeft,
        CardEffect::TurnsTimed(60),
        CardEffect::RaiseSquares(11),
        CardEffect::RemoveSquares(11),
        CardEffect::SplitPieceIntoPawns,
        CardEffect::Checkerify,
        CardEffect::Chessify,
        CardEffect::Knight,
    ]
}

impl CardEffect {
    /// A joker effect, drawn at random.
    pub fn get_joker_card_effect() -> (e: CardEffect)
        ensures
            joker_effects().contains(e),
    {
        let mut jokereffects: Vec<CardEffect> = Vec::new();
        jokereffects.push(CardEffect::BackToBackTurns);
        jokereffects.push(CardEffect::HalveTimeLeft);
        jokereffects.push(CardEffect::TurnsTimed(60));
        jokereffects.push(CardEffect::RaiseSquares(11));
        jokereffects.push(CardEffect::RemoveSquares(11));
        jokereffects.push(CardEffect::SplitPieceIntoPawns);
        jokereffects.push(CardEffect::Checkerify);
        jokereffects.push(CardEffect::Chessify);
        jokereffects.push(CardEffect::Knight);
        assert(jokereffects@ =~= joker_effects());
        let effectnumb = random_below(jokereffects.len());
        let jokereffect = jokereffects[effectnumb];
        assert(joker_effects()[effectnumb as int] == jokereffect);
        jokereffect
    }

    /// The file name of the effect's card picture.
    pub fn get_card_texture_location(&self) -> (s: String)
        ensures
            s@ == texture(*self),
    {
        match self {
            CardEffect::MakePoolGame => "poolgame.png".to_string(),
            CardEffect::BackToBackTurns => "backtoback.png".to_string(),
            CardEffect::HalveTimeLeft => "halvetimeleft.png".to_string(),
            CardEffect::RaiseSquares(_) => "raisedsquares.png".to_string(),
            CardEffect::RemoveSquares(_) => "droppedsquares.png".to_string(),
            CardEffect::AddChessPieces => "addchesspieces.png".to_string(),
            CardEffect::AddCheckersPieces => "addcheckerspieces.png".to_string(),
            CardEffect::TurnsTimed(_) => "turnstimed.png".to_string(),
            CardEffect::TurnsUntilDrawAvailable(turns) => {
                let mut s = String::new();
                push_decimal(&mut s, *turns);
                s.append("turnsuntildraw.png");
                s
            },
            CardEffect::SplitPieceIntoPawns => "splitpieceintopawns.png".to_string(),
            CardEffect::Checkerify => "checkerify.png".to_string(),
            CardEffect::Knight => "knight.png".to_string(),
            CardEffect::KingsReplaced => "kingsreplaced.png".to_string(),
            CardEffect::LossWithoutKing => "losswithoutking.png".to_string(),
            CardEffect::PawnsPromoted => "pawnspromoted.png".to_string(),
            CardEffect::Chessify => "chessify.png".to_string(),
        }
    }
}

} // verus!

verus! {

/// The kind of an effect that adds up when it is played twice: raised
/// squares 0, dropped squares 1, timed turns 2, turns until a draw 3; every
/// other effect 4.
pub open spec fn effect_kind(e: CardEffect) -> int {
    match e {
        CardEffect::RaiseSquares(_) => 0,
        CardEffect::RemoveSquares(_) => 1,
        CardEffect::TurnsTimed(_) => 2,
        CardEffect::TurnsUntilDrawAvailable(_) => 3,
        _ => 4,
    }
}

/// The number an effect carries, 0 for those that carry none.
pub open spec fn effect_amount(e: CardEffect) -> u32 {
    match e {
        CardEffect::RaiseSquares(n) => n,
        CardEffect::RemoveSquares(n) => n,
        CardEffect::TurnsTimed(n) => n,
        CardEffect::TurnsUntilDrawAvailable(n) => n,
        _ => 0,
    }
}

/// A later effect merged with an earlier one of its kind: square counts and
/// turns until a draw add up; timed turns keep the shorter length.
pub open spec fn merge(later: CardEffect, earlier: CardEffect) -> CardEffect {
    match later {
        CardEffect::RaiseSquares(n) => CardEffect::RaiseSquares((n + effect_amount(earlier)) as u32),
        CardEffect::RemoveSquares(n) => CardEffect::RemoveSquares((n + effect_amount(earlier)) as u32),
        CardEffect::TurnsTimed(n) => CardEffect::TurnsTimed(
            if effect_amount(earlier) < n { effect_amount(earlier) } else { n },
        ),
        CardEffect::TurnsUntilDrawAvailable(n) => CardEffect::TurnsUntilDrawAvailable(
            (n + effect_amount(earlier)) as u32,
        ),
        _ => later,
    }
}

/// The position of the first effect of kind `k`, or the length if none.
pub open spec fn first_of(s: Seq<CardEffect>, k: int) -> int
    decreases s.len(),
{
    if s.len() == 0 {
        0
    } else {
        let f = first_of(s.drop_last(), k);
        if f < s.len() - 1 {
            f
        } else if effect_kind(s.last()) == k {
            s.len() - 1
        } else {
            s.len() as int
        }
    }
}

/// The effect at `i` after merging: one that adds up and follows an earlier
/// effect of its kind is merged with the first such effect.
pub open spec fn merged_at(s: Seq<CardEffect>, i: int) -> CardEffect {
    let k = effect_kind(s[i]);
    let f = first_of(s.take(i), k);
    if k < 4 && f < i {
        merge(s[i], s[f])
    } else {
        s[i]
    }
}

/// The first effect of the kind of the last effect that has an earlier one of
/// its kind: the one entry that merging drops.
pub open spec fn removal(s: Seq<CardEffect>) -> Option<int>
    decreases s.len(),
{
    if s.len() == 0 {
        None
    } else {
        let i = s.len() - 1;
        let k = effect_kind(s[i]);
        let f = first_of(s.drop_last(), k);
        if k < 4 && f < i {
            Some(f)
        } else {
            removal(s.drop_last())
        }
    }
}

/// The effects after merging repeats: every repeat is merged with the first
/// effect of its kind, and the first effect of the last repeated kind is
/// dropped.
pub open spec fn combined(s: Seq<CardEffect>) -> Seq<CardEffect> {
    let m = Seq::new(s.len(), |i: int| merged_at(s, i));
    match removal(s) {
        Some(f) => m.remove(f),
        None => m,
    }
}

/// The sums that merging makes fit in a `u32`.
pub open spec fn merges_fit(s: Seq<CardEffect>) -> bool {
    forall|i: int|
        0 <= i < s.len() && effect_kind(#[trigger] s[i]) != 2 && effect_kind(s[i]) < 4 && first_of(
            s.take(i),
            effect_kind(s[i]),
        ) < i ==> effect_amount(s[i]) + effect_amount(s[first_of(s.take(i), effect_kind(s[i]))]) <= u32::MAX
}

/// No two effects of a kind that adds up.
pub open spec fn kinds_unique(s: Seq<CardEffect>) -> bool {
    forall|i: int, j: int|
        0 <= i < j < s.len() && effect_kind(#[trigger] s[i]) < 4 ==> effect_kind(s[i]) != effect_kind(
            #[trigger] s[j],
        )
}

/// The amount of the first effect of kind `k`, if there is one.
pub open spec fn first_amount(s: Seq<CardEffect>, k: int) -> Option<u32> {
    if first_of(s, k) < s.len() {
        Some(effect_amount(s[first_of(s, k)]))
    } else {
        None
    }
}

/// Square counts go down by one, stopping at 0.
pub open spec fn squares_decremented(e: CardEffect) -> CardEffect {
    match e {
        CardEffect::RaiseSquares(n) => CardEffect::RaiseSquares(if n > 0 { (n - 1) as u32 } else { 0 }),
        CardEffect::RemoveSquares(n) => CardEffect::RemoveSquares(if n > 0 { (n - 1) as u32 } else { 0 }),
        _ => e,
    }
}

/// Turns until a draw go down by one, stopping at 0.
pub open spec fn draw_wait_decremented(e: CardEffect) -> CardEffect {
    match e {
        CardEffect::TurnsUntilDrawAvailable(n) => CardEffect::TurnsUntilDrawAvailable(
            if n > 0 { (n - 1) as u32 } else { 0 },
        ),
        _ => e,
    }
}

/// The first effect of kind `k` is where `first_of` says, and none comes
/// before it.
pub proof fn lemma_first_of(s: Seq<CardEffect>, k: int)
    ensures
        0 <= first_of(s, k) <= s.len(),
        first_of(s, k) < s.len() ==> effect_kind(s[first_of(s, k)]) == k,
        forall|j: int| 0 <= j < first_of(s, k) ==> effect_kind(#[trigger] s[j]) != k,
    decreases s.len(),
{
    if s.len() > 0 {
        lemma_first_of(s.drop_last(), k);
        assert forall|j: int| 0 <= j < first_of(s, k) implies effect_kind(#[trigger] s[j]) != k by {
            if j < s.len() - 1 {
                assert(s.drop_last()[j] == s[j]);
            }
        }
    }
}

/// Looking one step further: the first of a kind in a longer prefix.
proof fn lemma_first_of_step(s: Seq<CardEffect>, i: int, k: int)
    requires
        0 <= i < s.len(),
    ensures
        first_of(s.take(i + 1), k) == if first_of(s.take(i), k) < i {
            first_of(s.take(i), k)
        } else if effect_kind(s[i]) == k {
            i
        } else {
            i + 1
        },
{
    assert(s.take(i + 1).drop_last() =~= s.take(i));
    lemma_first_of(s.take(i), k);
}

/// A prefix has the same first effect of a kind once it holds one.
proof fn lemma_first_of_prefix(s: Seq<CardEffect>, i: int, k: int)
    requires
        0 <= i <= s.len(),
    ensures
        first_of(s.take(i), k) < i ==> first_of(s, k) == first_of(s.take(i), k),
        first_of(s.take(i), k) >= i ==> first_of(s, k) >= i,
    decreases s.len() - i,
{
    lemma_first_of(s.take(i), k);
    if i == s.len() {
        assert(s.take(i) =~= s);
    } else {
        lemma_first_of_prefix(s, i + 1, k);
        lemma_first_of_step(s, i, k);
    }
}

/// Whether a list of effects holds this one.
fn effects_contain(v: &Vec<CardEffect>, e: CardEffect) -> (b: bool)
    ensures
        b == v@.contains(e),
{
    let mut i: usize = 0;
    while i < v.len()
        invariant
            i <= v.len(),
            forall|j: int| 0 <= j < i ==> v@[j] != e,
        decreases v.len() - i,
    {
        if v[i] == e {
            assert(v@[i as int] == e);
            return true;
        }
        i = i + 1;
    }
    false
}

/// The kind of an effect (see `effect_kind`).
fn kind_of(e: &CardEffect) -> (k: usize)
    ensures
        k == effect_kind(*e),
{
    match e {
        CardEffect::RaiseSquares(_) => 0,
        CardEffect::RemoveSquares(_) => 1,
        CardEffect::TurnsTimed(_) => 2,
        CardEffect::TurnsUntilDrawAvailable(_) => 3,
        _ => 4,
    }
}

/// The number an effect carries (see `effect_amount`).
fn amount_of(e: &CardEffect) -> (n: u32)
    ensures
        n == effect_amount(*e),
{
    match e {
        CardEffect::RaiseSquares(n) => *n,
        CardEffect::RemoveSquares(n) => *n,
        CardEffect::TurnsTimed(n) => *n,
        CardEffect::TurnsUntilDrawAvailable(n) => *n,
        _ => 0,
    }
}

/// The effects in play in a game.
#[derive(Clone)]
pub struct GameEffects {
    cardeffects: Vec<CardEffect>,
}

impl View for GameEffects {
    type V = Seq<CardEffect>;

    closed spec fn view(&self) -> Seq<CardEffect> {
        self.cardeffects@
    }
}

impl GameEffects {
    /// No effects.
    pub fn new() -> (g: GameEffects)
        ensures
            g@ == Seq::<CardEffect>::empty(),
    {
        GameEffects { cardeffects: Vec::new() }
    }

    /// Merges repeated effects of the kinds that add up (see `combined`).
    fn combine_and_remove_redundant_effects(&mut self)
        requires
            merges_fit(old(self)@),
        ensures
            final(self)@ == combined(old(self)@),
    {
        let ghost s = self.cardeffects@;
        let mut firsts: Vec<Option<(usize, u32)>> = vec![None, None, None, None];
        let mut indextoremove: Option<usize> = None;
        let mut curindex: usize = 0;
        while curindex < self.cardeffects.len()
            invariant
                s == old(self)@,
                merges_fit(s),
                curindex <= s.len(),
                self.cardeffects@.len() == s.len(),
                firsts@.len() == 4,
                forall|k: int| 0 <= k < 4 ==> #[trigger] firsts@[k] == if first_of(s.take(curindex as int), k) < curindex {
                    Some((first_of(s.take(curindex as int), k) as usize, effect_amount(s[first_of(s.take(curindex as int), k)])))
                } else {
                    None::<(usize, u32)>
                },
                forall|j: int| 0 <= j < curindex ==> #[trigger] self.cardeffects@[j] == merged_at(s, j),
                forall|j: int| curindex <= j < s.len() ==> #[trigger] self.cardeffects@[j] == s[j],
                indextoremove == match removal(s.take(curindex as int)) {
                    Some(f) => Some(f as usize),
                    None => None::<usize>,
                },
            decreases s.len() - curindex,
        {
            let ghost i = curindex as int;
            let effect = self.cardeffects[curindex];
            let k = kind_of(&effect);
            proof {
                assert(effect == s[i]);
                assert forall|kk: int| 0 <= kk < 4 implies first_of(s.take(i + 1), kk) == if first_of(s.take(i), kk) < i {
                    first_of(s.take(i), kk)
                } else if effect_kind(s[i]) == kk {
                    i
                } else {
                    i + 1
                } by {
                    lemma_first_of_step(s, i, kk);
                }
                lemma_first_of(s.take(i), k as int);
                assert(s.take(i + 1).drop_last() =~= s.take(i));
                assert(s.take(i + 1)[i] == s[i]);
                if first_of(s.take(i), k as int) < i {
                    assert(s.take(i)[first_of(s.take(i), k as int)] == s[first_of(s.take(i), k as int)]);
                }
            }
            if k < 4 {
                match firsts[k] {
                    Some((oldindex, oldvalue)) => {
                        let value = amount_of(&effect);
                        let newe = if k == 0 {
                            CardEffect::RaiseSquares(value + oldvalue)
                        } else if k == 1 {
                            CardEffect::RemoveSquares(value + oldvalue)
                        } else if k == 2 {
                            CardEffect::TurnsTimed(if oldvalue < value { oldvalue } else { value })
                        } else {
                            CardEffect::TurnsUntilDrawAvailable(value + oldvalue)
                        };
                        self.cardeffects.set(curindex, newe);
                        indextoremove = Some(oldindex);
                    },
                    None => {
                        firsts.set(k, Some((curindex, amount_of(&effect))));
                    },
                }
            }
            curindex = curindex + 1;
            proof {
                assert forall|kk: int| 0 <= kk < 4 implies #[trigger] firsts@[kk] == if first_of(s.take(i + 1), kk) < i + 1 {
                    Some((first_of(s.take(i + 1), kk) as usize, effect_amount(s[first_of(s.take(i + 1), kk)])))
                } else {
                    None::<(usize, u32)>
                } by {
                    lemma_first_of_step(s, i, kk);
                }
            }
        }
        proof {
            assert(s.take(s.len() as int) =~= s);
        }
        if let Some(idx) = indextoremove {
            proof {
                lemma_removal_bound(s);
            }
            self.cardeffects.remove(idx);
        }
        proof {
            let m = Seq::new(s.len(), |i: int| merged_at(s, i));
            match removal(s) {
                Some(f) => {
                    assert(self.cardeffects@ =~= m.remove(f));
                },
                None => {
                    assert(self.cardeffects@ =~= m);
                },
            }
        }
    }
}

impl GameEffects {
    /// The effects once this one is played: it joins the list unless the list
    /// already holds it, and then repeats are merged (see `combined`).
    pub open spec fn with_effect(s: Seq<CardEffect>, card: CardEffect) -> Seq<CardEffect> {
        combined(if s.contains(card) { s } else { s.push(card) })
    }

    /// Plays an effect: it joins the list unless already there, and effects
    /// that add up are merged with the earlier one of their kind.
    pub fn set_card_effect(&mut self, card: CardEffect)
        requires
            merges_fit(if old(self)@.contains(card) { old(self)@ } else { old(self)@.push(card) }),
        ensures
            final(self)@ == GameEffects::with_effect(old(self)@, card),
    {
        if effects_contain(&self.cardeffects, card) {
        } else {
            self.cardeffects.push(card);
        }
        self.combine_and_remove_redundant_effects();
    }

    /// Removes every copy of this effect.
    pub fn remove_card_effect(&mut self, card: CardEffect)
        ensures
            final(self)@ == old(self)@.filter(|x: CardEffect| x != card),
    {
        let mut kept: Vec<CardEffect> = Vec::new();
        let mut i: usize = 0;
        while i < self.cardeffects.len()
            invariant
                i <= self.cardeffects@.len(),
                self.cardeffects@ == old(self)@,
                kept@ == self.cardeffects@.take(i as int).filter(|x: CardEffect| x != card),
            decreases self.cardeffects.len() - i,
        {
            proof {
                reveal_with_fuel(Seq::<CardEffect>::filter, 1);
                assert(self.cardeffects@.take(i + 1).drop_last() =~= self.cardeffects@.take(i as int));
            }
            if self.cardeffects[i] != card {
                kept.push(self.cardeffects[i]);
            }
            i = i + 1;
        }
        assert(self.cardeffects@.take(i as int) =~= self.cardeffects@);
        self.cardeffects = kept;
    }

    /// A joker effect not in play, drawn at random with up to ten tries; after
    /// ten effects already in play, raising 2 squares. While no joker effect
    /// is in play, the first draw is the one returned.
    pub fn get_random_card_effect(&self) -> (e: CardEffect)
        ensures
            e == CardEffect::RaiseSquares(2) || (joker_effects().contains(e) && !self@.contains(e)),
            (forall|i: int| 0 <= i < joker_effects().len() ==> !self@.contains(#[trigger] joker_effects()[i]))
                ==> joker_effects().contains(e) && !self@.contains(e),
    {
        let mut x: u32 = 0;
        while x < 10
            invariant
                x <= 10,
                x > 0 ==> exists|i: int| 0 <= i < joker_effects().len() && self@.contains(#[trigger] joker_effects()[i]),
            decreases 10 - x,
        {
            let toreturn = CardEffect::get_joker_card_effect();
            if effects_contain(&self.cardeffects, toreturn) {
                proof {
                    let i = choose|i: int| 0 <= i < joker_effects().len() && joker_effects()[i] == toreturn;
                    assert(self@.contains(joker_effects()[i]));
                }
                x = x + 1;
                continue;
            }
            return toreturn;
        }
        CardEffect::RaiseSquares(2)
    }

    /// The picture file of each effect in play, in order.
    pub fn get_game_effect_names(&self) -> (r: Vec<String>)
        ensures
            r@.len() == self@.len(),
            forall|i: int| 0 <= i < r@.len() ==> #[trigger] r@[i]@ == texture(self@[i]),
    {
        let mut toreturn: Vec<String> = Vec::new();
        let mut i: usize = 0;
        while i < self.cardeffects.len()
            invariant
                i <= self.cardeffects@.len(),
                toreturn@.len() == i,
                forall|j: int| 0 <= j < i ==> #[trigger] toreturn@[j]@ == texture(self@[j]),
            decreases self.cardeffects.len() - i,
        {
            toreturn.push(self.cardeffects[i].get_card_texture_location());
            i = i + 1;
        }
        toreturn
    }

    /// Every raised and dropped square count goes down by one, stopping at 0.
    pub fn decrement_raised_and_dropped_squares(&mut self)
        ensures
            final(self)@ == old(self)@.map_values(|e: CardEffect| squares_decremented(e)),
    {
        let mut i: usize = 0;
        while i < self.cardeffects.len()
            invariant
                i <= self.cardeffects@.len(),
                self.cardeffects@.len() == old(self)@.len(),
                forall|j: int| 0 <= j < i ==> #[trigger] self.cardeffects@[j] == squares_decremented(old(self)@[j]),
                forall|j: int| i <= j < old(self)@.len() ==> #[trigger] self.cardeffects@[j] == old(self)@[j],
            decreases self.cardeffects.len() - i,
        {
            let e = self.cardeffects[i];
            let newe = match e {
                CardEffect::RaiseSquares(value) => CardEffect::RaiseSquares(value.saturating_sub(1)),
                CardEffect::RemoveSquares(value) => CardEffect::RemoveSquares(value.saturating_sub(1)),
                _ => e,
            };
            self.cardeffects.set(i, newe);
            i = i + 1;
        }
        assert(self.cardeffects@ =~= old(self)@.map_values(|e: CardEffect| squares_decremented(e)));
    }

    /// Every count of turns until a draw goes down by one, stopping at 0.
    pub fn decrement_turns_until_draw_available(&mut self)
        ensures
            final(self)@ == old(self)@.map_values(|e: CardEffect| draw_wait_decremented(e)),
    {
        let mut i: usize = 0;
        while i < self.cardeffects.len()
            invariant
                i <= self.cardeffects@.len(),
                self.cardeffects@.len() == old(self)@.len(),
                forall|j: int| 0 <= j < i ==> #[trigger] self.cardeffects@[j] == draw_wait_decremented(old(self)@[j]),
                forall|j: int| i <= j < old(self)@.len() ==> #[trigger] self.cardeffects@[j] == old(self)@[j],
            decreases self.cardeffects.len() - i,
        {
            let e = self.cardeffects[i];
            let newe = match e {
                CardEffect::TurnsUntilDrawAvailable(value) => CardEffect::TurnsUntilDrawAvailable(
                    value.saturating_sub(1),
                ),
                _ => e,
            };
            self.cardeffects.set(i, newe);
            i = i + 1;
        }
        assert(self.cardeffects@ =~= old(self)@.map_values(|e: CardEffect| draw_wait_decremented(e)));
    }

    /// The amount of the first effect of kind `k`, if any.
    fn first_amount_of_kind(&self, k: usize) -> (r: Option<u32>)
        requires
            k < 4,
        ensures
            r == first_amount(self@, k as int),
    {
        let ghost s = self@;
        let mut i: usize = 0;
        while i < self.cardeffects.len()
            invariant
                i <= s.len(),
                s == self@,
                k < 4,
                first_of(s.take(i as int), k as int) == i,
            decreases self.cardeffects.len() - i,
        {
            proof {
                lemma_first_of_step(s, i as int, k as int);
            }
            if kind_of(&self.cardeffects[i]) == k {
                proof {
                    lemma_first_of_prefix(s, i + 1, k as int);
                }
                return Some(amount_of(&self.cardeffects[i]));
            }
            i = i + 1;
        }
        proof {
            assert(s.take(i as int) =~= s);
        }
        None
    }

    /// Whether the deck can be drawn from: the turns until a draw are 0.
    pub fn is_draw_available(&self) -> (b: bool)
        ensures
            b == (first_amount(self@, 3) == Some(0u32)),
    {
        if let Some(turnstill) = self.get_turns_until_draw_available() {
            if turnstill == 0 {
                return true;
            }
        }
        false
    }

    /// The turns until the deck can be drawn from, if that effect is in play.
    pub fn get_turns_until_draw_available(&self) -> (r: Option<u32>)
        ensures
            r == first_amount(self@, 3),
    {
        self.first_amount_of_kind(3)
    }

    pub fn get_are_pawns_promoted(&self) -> (b: bool)
        ensures
            b == self@.contains(CardEffect::PawnsPromoted),
    {
        effects_contain(&self.cardeffects, CardEffect::PawnsPromoted)
    }

    pub fn get_are_kings_replaced(&self) -> (b: bool)
        ensures
            b == self@.contains(CardEffect::KingsReplaced),
    {
        effects_contain(&self.cardeffects, CardEffect::KingsReplaced)
    }

    pub fn get_loss_without_king(&self) -> (b: bool)
        ensures
            b == self@.contains(CardEffect::LossWithoutKing),
    {
        effects_contain(&self.cardeffects, CardEffect::LossWithoutKing)
    }

    pub fn get_double_turns(&self) -> (b: bool)
        ensures
            b == self@.contains(CardEffect::BackToBackTurns),
    {
        effects_contain(&self.cardeffects, CardEffect::BackToBackTurns)
    }

    pub fn get_knightified(&self) -> (b: bool)
        ensures
            b == self@.contains(CardEffect::Knight),
    {
        effects_contain(&self.cardeffects, CardEffect::Knight)
    }

    /// How many squares are raised: the first such effect's count, else 0.
    pub fn get_raised_squares(&self) -> (n: u32)
        ensures
            n == match first_amount(self@, 0) {
                Some(a) => a,
                None => 0u32,
            },
    {
        match self.first_amount_of_kind(0) {
            Some(a) => a,
            None => 0,
        }
    }

    /// How many squares are dropped: the first such effect's count, else 0.
    pub fn get_dropped_squares(&self) -> (n: u32)
        ensures
            n == match first_amount(self@, 1) {
                Some(a) => a,
                None => 0u32,
            },
    {
        match self.first_amount_of_kind(1) {
            Some(a) => a,
            None => 0,
        }
    }

    /// How long a turn lasts, if turns are timed.
    pub fn get_turn_length(&self) -> (r: Option<u32>)
        ensures
            r == first_amount(self@, 2),
    {
        self.first_amount_of_kind(2)
    }
}

/// The entry that merging drops lies within the list.
proof fn lemma_removal_bound(s: Seq<CardEffect>)
    ensures
        removal(s) matches Some(f) ==> 0 <= f < s.len(),
    decreases s.len(),
{
    if s.len() > 0 {
        lemma_first_of(s.drop_last(), effect_kind(s[s.len() - 1]));
        lemma_removal_bound(s.drop_last());
    }
}

} // verus!

verus! {

/// In a list with no repeated kind, no effect has an earlier one of its kind.
proof fn lemma_unique_first(s: Seq<CardEffect>, i: int)
    requires
        kinds_unique(s),
        0 <= i < s.len(),
    ensures
        effect_kind(s[i]) < 4 ==> first_of(s.take(i), effect_kind(s[i])) == i,
{
    let k = effect_kind(s[i]);
    lemma_first_of(s.take(i), k);
    if k < 4 && first_of(s.take(i), k) < i {
        let f = first_of(s.take(i), k);
        assert(s.take(i)[f] == s[f]);
        assert(effect_kind(s[f]) != effect_kind(s[i]));
    }
}

/// A list with no repeated kind has nothing to drop.
proof fn lemma_unique_no_removal(s: Seq<CardEffect>)
    requires
        kinds_unique(s),
    ensures
        removal(s) is None,
    decreases s.len(),
{
    if s.len() > 0 {
        let i = s.len() - 1;
        assert(s.drop_last() =~= s.take(i));
        lemma_unique_first(s, i);
        assert(kinds_unique(s.drop_last())) by {
            assert forall|a: int, b: int|
                0 <= a < b < s.drop_last().len() && effect_kind(#[trigger] s.drop_last()[a]) < 4 implies effect_kind(
                s.drop_last()[a],
            ) != effect_kind(#[trigger] s.drop_last()[b]) by {
                assert(s.drop_last()[a] == s[a]);
                assert(s.drop_last()[b] == s[b]);
            }
        }
        lemma_unique_no_removal(s.drop_last());
    }
}

/// Merging leaves a list with no repeated kind as it is.
proof fn lemma_unique_combined(s: Seq<CardEffect>)
    requires
        kinds_unique(s),
    ensures
        combined(s) == s,
{
    lemma_unique_no_removal(s);
    assert forall|i: int| 0 <= i < s.len() implies merged_at(s, i) == s[i] by {
        lemma_unique_first(s, i);
    }
    assert(combined(s) =~= s);
}

/// Merging after one effect joins a list with no repeated kind: if the list
/// held an effect of its kind, that one goes and the newcomer takes its
/// merged value; else the list just grows by the newcomer.
proof fn lemma_push_combined(s: Seq<CardEffect>, card: CardEffect)
    requires
        kinds_unique(s),
    ensures
        ({
            let k = effect_kind(card);
            let f = first_of(s, k);
            combined(s.push(card)) == if k < 4 && f < s.len() {
                s.push(merge(card, s[f])).remove(f)
            } else {
                s.push(card)
            }
        }),
{
    let t = s.push(card);
    let n = s.len() as int;
    let k = effect_kind(card);
    let f = first_of(s, k);
    assert(t.take(n) =~= s);
    assert(t.drop_last() =~= s);
    lemma_unique_no_removal(s);
    assert forall|i: int| 0 <= i < n implies merged_at(t, i) == s[i] by {
        assert(t.take(i) =~= s.take(i));
        lemma_unique_first(s, i);
    }
    let m = Seq::new(t.len(), |i: int| merged_at(t, i));
    lemma_first_of(s, k);
    if k < 4 && f < n {
        assert(t[f] == s[f]);
        assert(merged_at(t, n) == merge(card, s[f]));
        assert(removal(t) == Some(f));
        assert(m =~= s.push(merge(card, s[f])));
    } else {
        assert(m =~= s.push(card));
    }
}

/// The amount carried, or 0 for none.
pub open spec fn amount_or_zero(a: Option<u32>) -> int {
    match a {
        Some(n) => n as int,
        None => 0,
    }
}

/// After the effect at `f` goes and `x` joins at the end, the others keep
/// their order.
proof fn lemma_replaced_entries(s: Seq<CardEffect>, f: int, x: CardEffect)
    requires
        0 <= f < s.len(),
    ensures
        s.push(x).remove(f).len() == s.len(),
        s.push(x).remove(f)[s.len() - 1] == x,
        forall|j: int| 0 <= j < s.len() - 1 ==> #[trigger] s.push(x).remove(f)[j] == s[if j < f { j } else { j + 1 }],
{
}

/// Where the first effect of each kind lies once the effect at `f`, the one
/// of its kind, is replaced by `x` of the same kind at the end.
proof fn lemma_first_after_replace(s: Seq<CardEffect>, f: int, x: CardEffect)
    requires
        kinds_unique(s),
        0 <= f < s.len(),
        effect_kind(s[f]) < 4,
        effect_kind(x) == effect_kind(s[f]),
        first_of(s, effect_kind(x)) == f,
    ensures
        first_of(s.push(x).remove(f), effect_kind(x)) == s.len() - 1,
        forall|k2: int| 0 <= k2 < 4 && k2 != effect_kind(x) ==> #[trigger] first_amount(s.push(x).remove(f), k2)
            == first_amount(s, k2),
{
    let r = s.push(x).remove(f);
    let k = effect_kind(x);
    let n = s.len() as int;
    lemma_replaced_entries(s, f, x);
    lemma_first_of(r, k);
    if first_of(r, k) < n - 1 {
        let j = first_of(r, k);
        let sj = if j < f { j } else { j + 1 };
        assert(r[j] == s[sj]);
        assert(effect_kind(s[f]) != effect_kind(s[sj]));
    }
    assert forall|k2: int| 0 <= k2 < 4 && k2 != k implies #[trigger] first_amount(r, k2) == first_amount(s, k2) by {
        lemma_first_of(r, k2);
        lemma_first_of(s, k2);
        let fs = first_of(s, k2);
        let fr = first_of(r, k2);
        if fs < n {
            assert(fs != f);
            let rj = if fs < f { fs } else { fs - 1 };
            assert(r[rj] == s[fs]);
            if fr < rj {
                let sj = if fr < f { fr } else { fr + 1 };
                assert(r[fr] == s[sj]);
            }
            assert(fr == rj);
        } else if fr < n - 1 {
            let sj = if fr < f { fr } else { fr + 1 };
            assert(r[fr] == s[sj]);
        }
    }
}

/// Where the first effect of each kind lies once `x`, whose kind is not yet
/// there, joins at the end.
proof fn lemma_first_after_push(s: Seq<CardEffect>, x: CardEffect)
    requires
        first_of(s, effect_kind(x)) == s.len(),
    ensures
        first_of(s.push(x), effect_kind(x)) == s.len(),
        forall|k2: int| 0 <= k2 < 4 && k2 != effect_kind(x) ==> #[trigger] first_amount(s.push(x), k2) == first_amount(s, k2),
{
    let r = s.push(x);
    let k = effect_kind(x);
    let n = s.len() as int;
    lemma_first_of(r, k);
    lemma_first_of(s, k);
    if first_of(r, k) < n {
        assert(r[first_of(r, k)] == s[first_of(r, k)]);
    }
    assert forall|k2: int| 0 <= k2 < 4 && k2 != k implies #[trigger] first_amount(r, k2) == first_amount(s, k2) by {
        lemma_first_of(r, k2);
        lemma_first_of(s, k2);
        let fs = first_of(s, k2);
        let fr = first_of(r, k2);
        if fs < n {
            assert(r[fs] == s[fs]);
            if fr < fs {
                assert(r[fr] == s[fr]);
            }
        } else if fr < n {
            assert(r[fr] == s[fr]);
        }
    }
}

/// Playing an effect of a kind that adds up, with at most one effect of each
/// such kind in play: afterwards the effect of its kind carries the sum of
/// the amount in play and the amount played (raised squares, dropped squares,
/// turns until a draw), or the smaller of the two for timed turns; the first
/// of every other kind keeps its amount. A card already in play changes
/// nothing.
pub proof fn lemma_played_amounts_add_up(s: Seq<CardEffect>, card: CardEffect)
    requires
        kinds_unique(s),
        merges_fit(if s.contains(card) { s } else { s.push(card) }),
        effect_kind(card) < 4,
    ensures
        s.contains(card) ==> GameEffects::with_effect(s, card) == s,
        !s.contains(card) && effect_kind(card) != 2 ==> (first_amount(GameEffects::with_effect(s, card), effect_kind(card))
            matches Some(n) && n == effect_amount(card) + amount_or_zero(first_amount(s, effect_kind(card)))),
        !s.contains(card) && effect_kind(card) == 2 ==> first_amount(GameEffects::with_effect(s, card), 2) == Some(
            match first_amount(s, 2) {
                Some(a) => if a < effect_amount(card) { a } else { effect_amount(card) },
                None => effect_amount(card),
            },
        ),
        forall|k2: int| 0 <= k2 < 4 && k2 != effect_kind(card) ==> #[trigger] first_amount(GameEffects::with_effect(s, card), k2)
            == first_amount(s, k2),
{
    if s.contains(card) {
        lemma_unique_combined(s);
    } else {
        lemma_push_combined(s, card);
        let k = effect_kind(card);
        let f = first_of(s, k);
        let n = s.len() as int;
        lemma_first_of(s, k);
        if f < n {
            let merged = merge(card, s[f]);
            let t = s.push(card);
            assert(t.take(n) =~= s);
            assert(t[n] == card);
            assert(t[f] == s[f]);
            if k != 2 {
                assert(effect_amount(card) + effect_amount(s[f]) <= u32::MAX) by {
                    assert(effect_kind(t[n]) != 2 && effect_kind(t[n]) < 4 && first_of(t.take(n), effect_kind(t[n])) < n);
                }
            }
            assert(effect_kind(merged) == k);
            lemma_first_after_replace(s, f, merged);
            lemma_replaced_entries(s, f, merged);
        } else {
            lemma_first_after_push(s, card);
        }
    }
}

/// No kind that adds up occurs twice in play, and playing an effect keeps it
/// so: a repeat is merged into one entry.
pub proof fn lemma_set_card_effect_keeps_kinds_unique(s: Seq<CardEffect>, card: CardEffect)
    requires
        kinds_unique(s),
    ensures
        kinds_unique(GameEffects::with_effect(s, card)),
{
    if s.contains(card) {
        lemma_unique_combined(s);
    } else {
        lemma_push_combined(s, card);
        let k = effect_kind(card);
        let f = first_of(s, k);
        lemma_first_of(s, k);
        let n = s.len() as int;
        if k < 4 && f < n {
            let r = s.push(merge(card, s[f])).remove(f);
            assert(effect_kind(merge(card, s[f])) == k);
            assert forall|a: int, b: int|
                0 <= a < b < r.len() && effect_kind(#[trigger] r[a]) < 4 implies effect_kind(r[a]) != effect_kind(
                #[trigger] r[b],
            ) by {
                let sa = if a < f { a } else { a + 1 };
                if b == r.len() - 1 {
                    assert(r[a] == s[sa]);
                    assert(r[b] == merge(card, s[f]));
                    if sa != f && effect_kind(s[sa]) == k {
                        if sa < f {
                        } else {
                            assert(effect_kind(s[f]) != effect_kind(s[sa]));
                        }
                    }
                } else {
                    let sb = if b < f { b } else { b + 1 };
                    assert(r[a] == s[sa]);
                    assert(r[b] == s[sb]);
                }
            }
        } else {
            let r = s.push(card);
            assert forall|a: int, b: int|
                0 <= a < b < r.len() && effect_kind(#[trigger] r[a]) < 4 implies effect_kind(r[a]) != effect_kind(
                #[trigger] r[b],
            ) by {
                if b == n {
                    assert(r[a] == s[a]);
                } else {
                    assert(r[a] == s[a]);
                    assert(r[b] == s[b]);
                }
            }
        }
    }
}

} // verus!

verus! {

/// How long a turn lasts when turns are not timed.
pub const UNTIMED_TURN_TICKS: u32 = 100000;

/// Half of a number, rounded toward zero.
pub open spec fn halved(t: i32) -> i32 {
    if t >= 0 { (t / 2) as i32 } else { (-((-t) / 2)) as i32 }
}

/// The turn order as plain values. Each turn is `(player, length in ticks,
/// the turn that follows)`, and a turn's id is its position.
pub struct TurnTable {
    pub turns: Seq<(u8, u32, u16)>,
    pub currentturn: u16,
    pub currentturntick: u32,
    pub timeleft: Map<u8, i32>,
    pub turncounter: u16,
    pub turnchanged: bool,
}

/// Every turn's length set to `len`.
pub open spec fn with_lengths(turns: Seq<(u8, u32, u16)>, len: u32) -> Seq<(u8, u32, u16)> {
    turns.map_values(|t: (u8, u32, u16)| (t.0, len, t.2))
}

impl TurnTable {
    /// The order after the switch between single and double turns: with double
    /// turns, players 1 and 2 each take two turns in a row; with single turns,
    /// one each, the current turn going to the player who had it. The length of
    /// turn 0 carries over.
    pub open spec fn rebuilt(self, doubled: bool) -> TurnTable {
        let len = self.turns[0].1;
        if doubled && self.turns.len() == 2 {
            TurnTable { turns: seq![(1u8, len, 1u16), (1u8, len, 2u16), (2u8, len, 3u16), (2u8, len, 0u16)], ..self }
        } else if !doubled && self.turns.len() > 2 {
            TurnTable {
                turns: seq![(1u8, len, 1u16), (2u8, len, 0u16)],
                currentturn: if self.currentturn < 2 { 0u16 } else { 1u16 },
                ..self
            }
        } else {
            self
        }
    }

    /// The table with each turn lasting `turnlength` ticks, or unlimited.
    pub open spec fn relengthed(self, turnlength: Option<u32>) -> TurnTable {
        TurnTable {
            turns: with_lengths(
                self.turns,
                match turnlength {
                    Some(l) => l,
                    None => UNTIMED_TURN_TICKS,
                },
            ),
            ..self
        }
    }

    /// The player of the current turn.
    pub open spec fn current_player(self) -> u8 {
        self.turns[self.currentturn as int].0
    }

    /// One tick: after the order and lengths are set, a tick is spent on the
    /// current turn; past its length the next turn starts, counted as a new
    /// turn. The player whose turn the tick was spent on loses a tick of time.
    pub open spec fn ticked(self, doubled: bool, turnlength: Option<u32>) -> TurnTable {
        let r = self.rebuilt(doubled).relengthed(turnlength);
        let (p, len, next) = r.turns[r.currentturn as int];
        let tick = r.currentturntick + 1;
        let timeleft = r.timeleft.insert(p, (r.timeleft[p] - 1) as i32);
        if tick > len {
            TurnTable {
                currentturntick: 0,
                currentturn: next,
                turncounter: (r.turncounter + 1) as u16,
                turnchanged: true,
                timeleft,
                ..r
            }
        } else {
            TurnTable { currentturntick: tick as u32, turnchanged: false, timeleft, ..r }
        }
    }

    /// Whether a tick can be taken without overflow or a missing player.
    pub open spec fn can_tick(self, doubled: bool, turnlength: Option<u32>) -> bool {
        let r = self.rebuilt(doubled).relengthed(turnlength);
        let (p, len, next) = r.turns[r.currentturn as int];
        &&& r.currentturntick < u32::MAX
        &&& r.currentturntick + 1 > len ==> r.turncounter < u16::MAX
        &&& r.timeleft.contains_key(p)
        &&& r.timeleft[p] > i32::MIN
    }
}

/// Decides whose turn it is from a table of turns, each pointing to the next.
#[derive(Clone, Debug)]
pub struct TurnManager {
    totalturnsid: u16,
    /// The turns by id: `(player, length in ticks, next turn)`.
    turns: std::collections::HashMap<u16, (u8, u32, u16)>,
    currentturn: u16,
    /// The ticks spent on the current turn.
    currentturntick: u32,
    tickssincelastaction: std::collections::HashMap<u8, u32>,
    /// Each player's total ticks left.
    playertimeleft: std::collections::HashMap<u8, i32>,
    /// How many turns have ended.
    turncounter: u16,
    /// Whether the last tick started a new turn.
    turnchanged: bool,
}

impl View for TurnManager {
    type V = TurnTable;

    closed spec fn view(&self) -> TurnTable {
        TurnTable {
            turns: turn_seq(self.turns@),
            currentturn: self.currentturn,
            currentturntick: self.currentturntick,
            timeleft: self.playertimeleft@,
            turncounter: self.turncounter,
            turnchanged: self.turnchanged,
        }
    }
}

/// The turns of a table keyed by id, listed by id.
pub open spec fn turn_seq(m: Map<u16, (u8, u32, u16)>) -> Seq<(u8, u32, u16)> {
    Seq::new(m.len(), |i: int| m[i as u16])
}

/// The ids of the turns are 0 up to one less than their number.
pub open spec fn ids_consecutive(m: Map<u16, (u8, u32, u16)>) -> bool {
    &&& m.dom().finite()
    &&& forall|k: u16| #[trigger] m.contains_key(k) <==> (k as int) < m.len()
}

/// A table of turns keyed by id, the turns given in order of id.
fn turn_map(entries: Vec<(u8, u32, u16)>) -> (m: std::collections::HashMap<u16, (u8, u32, u16)>)
    requires
        entries@.len() <= 4,
    ensures
        ids_consecutive(m@),
        turn_seq(m@) == entries@,
{
    let mut m: std::collections::HashMap<u16, (u8, u32, u16)> = std::collections::HashMap::new();
    let mut i: usize = 0;
    while i < entries.len()
        invariant
            entries@.len() <= 4,
            i <= entries@.len(),
            m@.dom().finite(),
            m@.len() == i,
            forall|k: u16| #[trigger] m@.contains_key(k) <==> (k as int) < i,
            forall|k: u16| (k as int) < i ==> #[trigger] m@[k] == entries@[k as int],
        decreases entries.len() - i,
    {
        let ghost before = m@;
        assert(!before.contains_key(i as u16));
        m.insert(i as u16, entries[i]);
        assert(m@.dom() == before.dom().insert(i as u16));
        i = i + 1;
    }
    assert(turn_seq(m@) =~= entries@);
    m
}

/// The table is two or four turns long and every id in it points into it.
pub open spec fn table_wf(t: TurnTable) -> bool {
    &&& t.turns.len() == 2 || t.turns.len() == 4
    &&& t.currentturn < t.turns.len()
    &&& forall|i: int| 0 <= i < t.turns.len() ==> (#[trigger] t.turns[i]).2 < t.turns.len()
}

/// The players that have a total time, each once.
fn time_keys(m: &std::collections::HashMap<u8, i32>) -> (keys: Vec<u8>)
    ensures
        keys@.to_set() == m@.dom(),
        keys@.no_duplicates(),
{
    let mut toreturn: Vec<u8> = Vec::new();
    let ghost ks = vstd::std_specs::iter::IteratorSpec::remaining(&vstd::std_specs::hash::spec_keys_iter(m));
    for k in it: m.keys()
        invariant
            it.seq() == ks,
            toreturn@ == ks.take(it.index()).map_values(|x: &u8| *x),
    {
        toreturn.push(*k);
    }
    assert(toreturn@ =~= ks.unref());
    toreturn
}

/// Half of a number, rounded toward zero.
fn halve(t: i32) -> (r: i32)
    ensures
        r == halved(t),
{
    if t >= 0 {
        t / 2
    } else if t == i32::MIN {
        -1073741824
    } else {
        -((-t) / 2)
    }
}

impl TurnManager {
    pub open spec fn wf(&self) -> bool {
        table_wf(self@) && self.ids_ok()
    }

    /// The turns are keyed by the ids from 0 up.
    pub closed spec fn ids_ok(&self) -> bool {
        ids_consecutive(self.turns@)
    }

    /// Player 1's turn, then player 2's, each unlimited; both players have
    /// 10000 ticks in all.
    pub fn new_two_player(player1: u8, player2: u8) -> (tm: TurnManager)
        ensures
            tm.wf(),
            tm@ == (TurnTable {
                turns: seq![(player1, UNTIMED_TURN_TICKS, 1u16), (player2, UNTIMED_TURN_TICKS, 0u16)],
                currentturn: 0,
                currentturntick: 2,
                timeleft: map![player1 => 10000i32, player2 => 10000i32],
                turncounter: 0,
                turnchanged: true,
            }),
    {
        let turns = turn_map(vec![(player1, UNTIMED_TURN_TICKS, 1), (player2, UNTIMED_TURN_TICKS, 0)]);
        let mut tickssincelastaction: std::collections::HashMap<u8, u32> = std::collections::HashMap::new();
        tickssincelastaction.insert(player1, 0);
        tickssincelastaction.insert(player2, 0);
        let mut playertimeleft: std::collections::HashMap<u8, i32> = std::collections::HashMap::new();
        playertimeleft.insert(player1, 10000);
        playertimeleft.insert(player2, 10000);
        let tm = TurnManager {
            totalturnsid: 0,
            turns,
            currentturn: 0,
            currentturntick: 2,
            tickssincelastaction,
            playertimeleft,
            turncounter: 0,
            turnchanged: true,
        };
        assert(tm@.turns =~= seq![(player1, UNTIMED_TURN_TICKS, 1u16), (player2, UNTIMED_TURN_TICKS, 0u16)]);
        assert(tm@.timeleft =~= map![player1 => 10000i32, player2 => 10000i32]);
        tm
    }

    /// One tick (see `TurnTable::ticked`): `playerstake2inrow` switches to two
    /// turns in a row each, and `tickstotaketurn` sets every turn's length.
    pub fn tick(&mut self, playerstake2inrow: bool, tickstotaketurn: Option<u32>)
        requires
            old(self).wf(),
            old(self)@.can_tick(playerstake2inrow, tickstotaketurn),
        ensures
            final(self).wf(),
            final(self)@ == old(self)@.ticked(playerstake2inrow, tickstotaketurn),
    {
        if playerstake2inrow {
            if self.turns.len() == 2 {
                let length = self.turns.get(&0).unwrap().1;
                self.turns = turn_map(vec![(1, length, 1), (1, length, 2), (2, length, 3), (2, length, 0)]);
            }
        } else {
            if self.turns.len() > 2 {
                if self.currentturn < 2 {
                    self.currentturn = 0;
                }
                if self.currentturn >= 2 {
                    self.currentturn = 1;
                }
                let length = self.turns.get(&0).unwrap().1;
                self.turns = turn_map(vec![(1, length, 1), (2, length, 0)]);
            }
        }
        let ghost r0 = old(self)@.rebuilt(playerstake2inrow);
        assert(self@ == r0);
        let newturnlen = match tickstotaketurn {
            Some(l) => l,
            None => UNTIMED_TURN_TICKS,
        };
        let mut i: usize = 0;
        while i < self.turns.len()
            invariant
                i <= self.turns@.len(),
                self.turns@.len() == r0.turns.len(),
                r0.turns.len() <= 4,
                ids_consecutive(self.turns@),
                forall|j: u16| (j as int) < i ==> #[trigger] self.turns@[j] == (r0.turns[j as int].0, newturnlen, r0.turns[j as int].2),
                forall|j: u16| i <= (j as int) < r0.turns.len() ==> #[trigger] self.turns@[j] == r0.turns[j as int],
                self.currentturn == r0.currentturn,
                self.currentturntick == r0.currentturntick,
                self.playertimeleft@ == r0.timeleft,
                self.turncounter == r0.turncounter,
                self.turnchanged == r0.turnchanged,
            decreases self.turns.len() - i,
        {
            let (p, _, n) = *self.turns.get(&(i as u16)).unwrap();
            let ghost before = self.turns@;
            self.turns.insert(i as u16, (p, newturnlen, n));
            assert(self.turns@.dom() =~= before.dom());
            i = i + 1;
        }
        let ghost r = r0.relengthed(tickstotaketurn);
        assert(turn_seq(self.turns@) =~= r.turns);
        let (playerid, length, nextturn) = *self.turns.get(&self.currentturn).unwrap();
        self.currentturntick = self.currentturntick + 1;
        if self.currentturntick > length {
            self.currentturntick = 0;
            self.currentturn = nextturn;
            self.turncounter = self.turncounter + 1;
            self.turnchanged = true;
        } else {
            self.turnchanged = false;
        }
        let timeleft = *self.playertimeleft.get(&playerid).unwrap();
        self.playertimeleft.insert(playerid, timeleft - 1);
    }

    /// Whether the last tick started a new turn.
    pub fn did_turn_change(&self) -> (b: bool)
        ensures
            b == self@.turnchanged,
    {
        self.turnchanged
    }

    /// How many turns have ended.
    pub fn get_turn_number(&self) -> (n: u16)
        ensures
            n == self@.turncounter,
    {
        self.turncounter
    }

    /// A player acted: the current turn is pushed past its end, so the next
    /// tick starts the next turn.
    pub fn player_took_action(&mut self, playerid: u8)
        requires
            old(self)@.currentturntick + 1000000 <= u32::MAX,
        ensures
            old(self).wf() ==> final(self).wf(),
            final(self)@ == (TurnTable { currentturntick: (old(self)@.currentturntick + 1000000) as u32, ..old(self)@ }),
    {
        self.currentturntick = self.currentturntick + 1000000;
    }

    /// The player of the current turn.
    pub fn get_current_players(&self) -> (r: std::collections::HashSet<u8>)
        requires
            self.wf(),
        ensures
            r@ == set![self@.current_player()],
    {
        let turn = *self.turns.get(&self.currentturn).unwrap();
        let mut toreturn: std::collections::HashSet<u8> = std::collections::HashSet::new();
        toreturn.insert(turn.0);
        assert(toreturn@ =~= set![self@.current_player()]);
        toreturn
    }

    /// For the player of the current turn, the ticks left in it (0 once it is
    /// past its end, as after an action); for anyone else 0.
    pub fn get_ticks_left_for_players_turn(&self, playerid: u8) -> (n: u32)
        requires
            self.wf(),
        ensures
            n == if playerid == self@.current_player() {
                if self@.currentturntick <= self@.turns[self@.currentturn as int].1 {
                    (self@.turns[self@.currentturn as int].1 - self@.currentturntick) as u32
                } else {
                    0
                }
            } else {
                0
            },
    {
        let (curplayerid, turnlength, _) = *self.turns.get(&self.currentturn).unwrap();
        if playerid == curplayerid {
            return turnlength.saturating_sub(self.currentturntick);
        }
        0
    }

    /// The player's total ticks left, never below 0.
    pub fn get_players_total_ticks_left(&self, playerid: u8) -> (r: u32)
        requires
            self@.timeleft.contains_key(playerid),
        ensures
            r == if self@.timeleft[playerid] < 0 { 0 } else { self@.timeleft[playerid] as u32 },
    {
        let ticksleft = *self.playertimeleft.get(&playerid).unwrap();
        if ticksleft < 0 {
            0
        } else {
            ticksleft as u32
        }
    }

    /// Halves every player's total time left, rounding toward zero.
    pub fn halve_time_left(&mut self)
        ensures
            old(self).wf() ==> final(self).wf(),
            final(self)@ == (TurnTable {
                timeleft: old(self)@.timeleft.map_values(|t: i32| halved(t)),
                ..old(self)@
            }),
    {
        let keys = time_keys(&self.playertimeleft);
        let ghost before = self.playertimeleft@;
        let mut i: usize = 0;
        while i < keys.len()
            invariant
                i <= keys.len(),
                keys@.to_set() == before.dom(),
                keys@.no_duplicates(),
                self.turns@ == old(self).turns@,
                self.currentturn == old(self).currentturn,
                self.currentturntick == old(self).currentturntick,
                self.turncounter == old(self).turncounter,
                self.turnchanged == old(self).turnchanged,
                before == old(self).playertimeleft@,
                self.playertimeleft@.dom() == before.dom(),
                forall|k: u8| #[trigger] before.contains_key(k) ==> self.playertimeleft@[k] == if keys@.take(
                    i as int,
                ).contains(k) {
                    halved(before[k])
                } else {
                    before[k]
                },
            decreases keys.len() - i,
        {
            let player = keys[i];
            proof {
                assert(keys@.to_set().contains(player));
            }
            let timeleft = *self.playertimeleft.get(&player).unwrap();
            self.playertimeleft.insert(player, halve(timeleft));
            i = i + 1;
            proof {
                let cur = keys@.take(i as int);
                let prev = keys@.take(i - 1);
                assert forall|k: u8| #[trigger] before.contains_key(k) implies self.playertimeleft@[k] == if cur.contains(k) {
                    halved(before[k])
                } else {
                    before[k]
                } by {
                    if k == player {
                        assert(cur[i - 1] == k);
                        assert(!prev.contains(k)) by {
                            if prev.contains(k) {
                                let j = choose|j: int| 0 <= j < prev.len() && prev[j] == k;
                                assert(keys@[j] == keys@[i - 1]);
                            }
                        }
                    } else {
                        if cur.contains(k) {
                            let j = choose|j: int| 0 <= j < cur.len() && cur[j] == k;
                            assert(prev[j] == k);
                        }
                        if prev.contains(k) {
                            let j = choose|j: int| 0 <= j < prev.len() && prev[j] == k;
                            assert(cur[j] == k);
                        }
                    }
                }
                assert(self.playertimeleft@.dom() =~= before.dom());
            }
        }
        proof {
            assert(keys@.take(i as int) =~= keys@);
            assert forall|k: u8| #[trigger] before.contains_key(k) implies keys@.contains(k) by {
                assert(keys@.to_set().contains(k));
            }
            assert(self.playertimeleft@ =~= before.map_values(|t: i32| halved(t)));
        }
    }
}

} // verus!
