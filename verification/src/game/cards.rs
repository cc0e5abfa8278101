use vstd::prelude::*;
use vstd::string::StringExecFns;
use crate::text::{decimal, push_decimal};

verus! {

broadcast use vstd::string::group_string_axioms;

/// What a card does to the game when it is played.
#[derive(Clone, Copy, Debug, PartialEq, Eq, Hash, Structural)]
pub enum CardEffect {
    BackToBackTurns,
    HalveTimeLeft,
    /// Each turn lasts this many ticks.
    TurnsTimed(u32),
    AddChessPieces,
    AddCheckersPieces,
    /// How many turns until the deck can be drawn from again.
    TurnsUntilDrawAvailable(u32),
    SplitPieceIntoPawns,
    Checkerify,
    Chessify,
    /// Pieces worth more than 1 move as knights too.
    Knight,
    RemoveSquares(u32),
    AddSquares(u32),
    ChangeSpeed(u32),
    LevelPieces,
    AddRandomPieces(u32),
    TiltActions(u32),
    SplitIntoPawns,
    MakeCheckers,
    IntoFlicks,
    KingsReplaced(bool),
    LossWithoutKing(bool),
    PawnsPromoted(bool),
}

/// The file name of each effect's card picture (`XX.png` for those with no
/// picture yet).
pub open spec fn texture(e: CardEffect) -> Seq<char> {
    match e {
        CardEffect::BackToBackTurns => "backtoback.png"@,
        CardEffect::HalveTimeLeft => "halvetimeleft.png"@,
        CardEffect::TurnsTimed(_) => "turnstimed.png"@,
        CardEffect::AddChessPieces => "addchesspieces.png"@,
        CardEffect::AddCheckersPieces => "addcheckerspieces.png"@,
        CardEffect::TurnsUntilDrawAvailable(turns) => decimal(turns as nat) + "turnsuntildraw.png"@,
        CardEffect::SplitPieceIntoPawns => "splitpieceintopawns.png"@,
        CardEffect::Checkerify => "checkerify.png"@,
        CardEffect::Chessify => "chessify.png"@,
        CardEffect::Knight => "knight.png"@,
        CardEffect::RemoveSquares(_) => "droppedsquares.png"@,
        CardEffect::AddSquares(_) => "addsquares.png"@,
        CardEffect::ChangeSpeed(_) => "slower.png"@,
        CardEffect::LevelPieces => "XX.png"@,
        CardEffect::AddRandomPieces(_) => "XX.png"@,
        CardEffect::TiltActions(_) => "XX.png"@,
        CardEffect::SplitIntoPawns => "XX.png"@,
        CardEffect::MakeCheckers => "XX.png"@,
        CardEffect::IntoFlicks => "intoflick.png"@,
        CardEffect::KingsReplaced(_) => "kingsreplaced.png"@,
        CardEffect::LossWithoutKing(_) => "losswithoutking.png"@,
        CardEffect::PawnsPromoted(_) => "pawnspromoted.png"@,
    }
}

impl CardEffect {
    /// The file name of the effect's card picture.
    pub fn get_card_texture_location(&self) -> (s: String)
        ensures
            s@ == texture(*self),
    {
        match self {
            CardEffect::BackToBackTurns => "backtoback.png".to_string(),
            CardEffect::HalveTimeLeft => "halvetimeleft.png".to_string(),
            CardEffect::TurnsTimed(_) => "turnstimed.png".to_string(),
            CardEffect::AddChessPieces => "addchesspieces.png".to_string(),
            CardEffect::AddCheckersPieces => "addcheckerspieces.png".to_string(),
            CardEffect::TurnsUntilDrawAvailable(turns) => {
                let mut s = String::new();
                push_decimal(&mut s, *turns);
                s.append("turnsuntildraw.png");
                s
            },
            CardEffect::SplitPieceIntoPawns => "splitpieceintopawns.png".to_string(),
            CardEffect::Checkerify => "checkerify.png".to_string(),
            CardEffect::Chessify => "chessify.png".to_string(),
            CardEffect::Knight => "knight.png".to_string(),
            CardEffect::RemoveSquares(_) => "droppedsquares.png".to_string(),
            CardEffect::AddSquares(_) => "addsquares.png".to_string(),
            CardEffect::ChangeSpeed(_) => "slower.png".to_string(),
            CardEffect::LevelPieces => "XX.png".to_string(),
            CardEffect::AddRandomPieces(_) => "XX.png".to_string(),
            CardEffect::TiltActions(_) => "XX.png".to_string(),
            CardEffect::SplitIntoPawns => "XX.png".to_string(),
            CardEffect::MakeCheckers => "XX.png".to_string(),
            CardEffect::IntoFlicks => "intoflick.png".to_string(),
            CardEffect::KingsReplaced(_) => "kingsreplaced.png".to_string(),
            CardEffect::LossWithoutKing(_) => "losswithoutking.png".to_string(),
            CardEffect::PawnsPromoted(_) => "pawnspromoted.png".to_string(),
        }
    }
}

/// A part of the game that card effects act on, such as the turn manager.
pub trait EffectTrait {
    /// The effects in play on this part.
    spec fn effects_view(&self) -> Seq<CardEffect>;

    /// The effects played on this part so far, in the order they were played.
    spec fn played(&self) -> Seq<CardEffect>;

    /// Plays an effect on this part, once.
    fn apply_effect(&mut self, effect: CardEffect)
        ensures
            final(self).played() == old(self).played().push(effect);

    /// The effects in play on this part.
    fn get_effects(&self) -> (r: Vec<CardEffect>)
        ensures
            r@ == self.effects_view();
}

/// The effects in play on each of the parts, one part after the other.
pub open spec fn all_effects(x: Seq<&dyn EffectTrait>) -> Seq<CardEffect>
    decreases x.len(),
{
    if x.len() == 0 {
        Seq::empty()
    } else {
        all_effects(x.drop_last()) + x.last().effects_view()
    }
}

/// Plays an effect on each of the parts, in order.
pub fn apply_to_all(effect: CardEffect, x: Vec<&mut dyn EffectTrait>)
    ensures
        forall|i: int| 0 <= i < x@.len() ==> (*final(#[trigger] x@[i])).played() == (*x@[i]).played().push(effect),
{
    let ghost orig = x@;
    let mut x = x;
    let n = x.len();
    let mut k: usize = 0;
    while x.len() > 0
        invariant
            orig.len() == n,
            k <= orig.len(),
            x@ == orig.subrange(k as int, orig.len() as int),
            forall|i: int| 0 <= i < k ==> (*final(#[trigger] orig[i])).played() == (*orig[i]).played().push(effect),
        decreases x.len(),
    {
        let y = x.remove(0);
        y.apply_effect(effect);
        k = k + 1;
    }
}

/// The effects in play on each of the parts, one part after the other.
pub fn collect_effects(x: &Vec<&dyn EffectTrait>) -> (r: Vec<CardEffect>)
    ensures
        r@ == all_effects(x@),
{
    let mut toreturn: Vec<CardEffect> = Vec::new();
    let mut i: usize = 0;
    while i < x.len()
        invariant
            i <= x@.len(),
            toreturn@ == all_effects(x@.take(i as int)),
        decreases x.len() - i,
    {
        let mut more = x[i].get_effects();
        toreturn.append(&mut more);
        i = i + 1;
        proof {
            assert(x@.take(i as int).drop_last() =~= x@.take(i - 1));
        }
    }
    assert(x@.take(i as int) =~= x@);
    toreturn
}

/// The picture file of each effect, in order.
pub fn effect_textures(effects: &Vec<CardEffect>) -> (r: Vec<String>)
    ensures
        r@.len() == effects@.len(),
        forall|i: int| 0 <= i < r@.len() ==> #[trigger] r@[i]@ == texture(effects@[i]),
{
    let mut toreturn: Vec<String> = Vec::new();
    let mut i: usize = 0;
    while i < effects.len()
        invariant
            i <= effects@.len(),
            toreturn@.len() == i,
            forall|j: int| 0 <= j < i ==> #[trigger] toreturn@[j]@ == texture(effects@[j]),
        decreases effects.len() - i,
    {
        toreturn.push(effects[i].get_card_texture_location());
        i = i + 1;
    }
    toreturn
}

/// Whether a list of effects holds this one.
pub fn effects_contain(v: &Vec<CardEffect>, e: CardEffect) -> (b: bool)
    ensures
        b == v@.contains(e),
{
    let mut i: usize = 0;
    while i < v.len()
        invariant
            i <= v.len(),
            forall|j: int| 0 <= j < i ==> v@[j] != e,
        decreases v.len() - i,
    {
        if v[i] == e {
            assert(v@[i as int] == e);
            return true;
        }
        i = i + 1;
    }
    false
}

/// The effects a pile is refilled from once its card is drawn.
pub open spec fn refill_effects() -> Seq<CardEffect> {
    seq![
        CardEffect::ChangeSpeed(200),
        CardEffect::HalveTimeLeft,
        CardEffect::IntoFlicks,
        CardEffect::Knight,
        CardEffect::TurnsTimed(200),
        CardEffect::RemoveSquares(20),
        CardEffect::AddSquares(20),
        CardEffect::BackToBackTurns,
    ]
}

/// The four piles of cards to draw from, and the effects drawn so far.
pub struct CardsView {
    pub piles: Seq<CardEffect>,
    pub lastcardeffect: Option<Seq<char>>,
    pub usedeffects: Seq<CardEffect>,
}

/// The four piles of cards to draw from and the effects already drawn.
pub struct Cards {
    /// The effect on the top card of each pile.
    piles: Vec<CardEffect>,
    /// The picture of the effect played last.
    lastcardeffect: Option<String>,
    /// Every effect that has been on a pile.
    usedeffects: Vec<CardEffect>,
}

impl View for Cards {
    type V = CardsView;

    closed spec fn view(&self) -> CardsView {
        CardsView {
            piles: self.piles@,
            lastcardeffect: match self.lastcardeffect {
                Some(s) => Some(s@),
                None => None,
            },
            usedeffects: self.usedeffects@,
        }
    }
}

impl Cards {
    /// Four piles.
    pub closed spec fn wf(&self) -> bool {
        self.piles@.len() == 4
    }

    /// Piles of adding 30 squares, knights, dropping 10 squares and changing
    /// the speed to 100, all four counted as drawn; nothing played yet.
    pub fn new() -> (c: Cards)
        ensures
            c.wf(),
            c@ == (CardsView {
                piles: seq![
                    CardEffect::AddSquares(30),
                    CardEffect::Knight,
                    CardEffect::RemoveSquares(10),
                    CardEffect::ChangeSpeed(100),
                ],
                lastcardeffect: None,
                usedeffects: seq![
                    CardEffect::AddSquares(30),
                    CardEffect::Knight,
                    CardEffect::RemoveSquares(10),
                    CardEffect::ChangeSpeed(100),
                ],
            }),
    {
        let piles: Vec<CardEffect> = vec![
            CardEffect::AddSquares(30),
            CardEffect::Knight,
            CardEffect::RemoveSquares(10),
            CardEffect::ChangeSpeed(100),
        ];
        let mut usedeffects: Vec<CardEffect> = Vec::new();
        usedeffects.push(piles[0]);
        usedeffects.push(piles[1]);
        usedeffects.push(piles[2]);
        usedeffects.push(piles[3]);
        let c = Cards { piles, lastcardeffect: None, usedeffects };
        assert(c@.piles =~= seq![
            CardEffect::AddSquares(30),
            CardEffect::Knight,
            CardEffect::RemoveSquares(10),
            CardEffect::ChangeSpeed(100),
        ]);
        assert(c@.usedeffects =~= c@.piles);
        c
    }

    /// The picture of the effect played last, if any.
    pub fn get_last_effect_texture(&self) -> (r: Option<String>)
        ensures
            match r {
                Some(s) => self@.lastcardeffect == Some(s@),
                None => self@.lastcardeffect is None,
            },
    {
        match &self.lastcardeffect {
            Some(s) => Some(s.clone()),
            None => None,
        }
    }

    /// Whether the effect has ever been on a pile.
    pub fn has_effect_been_used(&self, effect: &CardEffect) -> (b: bool)
        ensures
            b == self@.usedeffects.contains(*effect),
    {
        effects_contain(&self.usedeffects, *effect)
    }

    /// Plays the top card of a pile on the parts, counts it as drawn, and puts
    /// on the pile an effect that has never been drawn, if one of the refill
    /// effects is left; else the pile keeps its effect.
    pub fn draw_card_from_pile(&mut self, pile: &u16, x: Vec<&mut dyn EffectTrait>)
        requires
            old(self).wf(),
            *pile < 4,
        ensures
            final(self).wf(),
            forall|i: int| 0 <= i < x@.len() ==> (*final(#[trigger] x@[i])).played() == (*x@[i]).played().push(old(self)@.piles[*pile as int]),
            ({
                let effect = old(self)@.piles[*pile as int];
                let used = old(self)@.usedeffects.push(effect);
                &&& final(self)@.lastcardeffect == Some(texture(effect))
                &&& final(self)@.usedeffects == used
                &&& if exists|i: int| 0 <= i < refill_effects().len() && !used.contains(#[trigger] refill_effects()[i]) {
                    &&& final(self)@.piles == old(self)@.piles.update(*pile as int, final(self)@.piles[*pile as int])
                    &&& refill_effects().contains(final(self)@.piles[*pile as int])
                    &&& !used.contains(final(self)@.piles[*pile as int])
                } else {
                    final(self)@.piles == old(self)@.piles
                }
            }),
    {
        let p = *pile as usize;
        let effect = self.piles[p];
        self.set_card_effect(effect, x);
        self.usedeffects.push(effect);
        let effects: Vec<CardEffect> = vec![
            CardEffect::ChangeSpeed(200),
            CardEffect::HalveTimeLeft,
            CardEffect::IntoFlicks,
            CardEffect::Knight,
            CardEffect::TurnsTimed(200),
            CardEffect::RemoveSquares(20),
            CardEffect::AddSquares(20),
            CardEffect::BackToBackTurns,
        ];
        assert(effects@ =~= refill_effects());
        let ghost used = self.usedeffects@;
        let mut i: usize = 0;
        let mut chosen: Option<CardEffect> = None;
        while i < effects.len() && chosen.is_none()
            invariant
                i <= effects@.len(),
                effects@ == refill_effects(),
                self.usedeffects@ == used,
                match chosen {
                    Some(c) => refill_effects().contains(c) && !used.contains(c),
                    None => forall|j: int| 0 <= j < i ==> used.contains(#[trigger] refill_effects()[j]),
                },
            decreases effects.len() - i,
        {
            let candidate = effects[i];
            if !self.has_effect_been_used(&candidate) {
                assert(refill_effects()[i as int] == candidate);
                chosen = Some(candidate);
            }
            i = i + 1;
        }
        if let Some(c) = chosen {
            self.piles.set(p, c);
        }
        proof {
            if let Some(c) = chosen {
                let j = choose|j: int| 0 <= j < refill_effects().len() && refill_effects()[j] == c;
                assert(!used.contains(refill_effects()[j]));
            }
        }
    }

    /// Plays dropping 2 squares on the parts.
    pub fn set_random_card_effect(&mut self, x: Vec<&mut dyn EffectTrait>)
        ensures
            forall|i: int| 0 <= i < x@.len() ==> (*final(#[trigger] x@[i])).played() == (*x@[i]).played().push(CardEffect::RemoveSquares(2)),
            final(self)@ == (CardsView {
                lastcardeffect: Some(texture(CardEffect::RemoveSquares(2))),
                ..old(self)@
            }),
    {
        let effect = CardEffect::RemoveSquares(2);
        self.set_card_effect(effect, x);
    }

    /// Plays an effect on each of the parts and records its picture as the
    /// one played last.
    pub fn set_card_effect(&mut self, effect: CardEffect, x: Vec<&mut dyn EffectTrait>)
        ensures
            forall|i: int| 0 <= i < x@.len() ==> (*final(#[trigger] x@[i])).played() == (*x@[i]).played().push(effect),
            final(self)@ == (CardsView { lastcardeffect: Some(texture(effect)), ..old(self)@ }),
    {
        apply_to_all(effect, x);
        self.lastcardeffect = Some(effect.get_card_texture_location());
    }

    /// The effects in play on the parts, one part after the other.
    fn get_card_effects(x: Vec<&dyn EffectTrait>) -> (r: Vec<CardEffect>)
        ensures
            r@ == all_effects(x@),
    {
        collect_effects(&x)
    }

    /// The pictures of the effects in play on the parts.
    pub fn get_active_card_effect_textures(x: Vec<&dyn EffectTrait>) -> (r: Vec<String>)
        ensures
            r@.len() == all_effects(x@).len(),
            forall|i: int| 0 <= i < r@.len() ==> #[trigger] r@[i]@ == texture(all_effects(x@)[i]),
    {
        let effects = Cards::get_card_effects(x);
        effect_textures(&effects)
    }

    /// The picture of the top card of each pile.
    pub fn get_card_pile_textures(&self) -> (r: [String; 4])
        requires
            self.wf(),
        ensures
            forall|i: int| 0 <= i < 4 ==> #[trigger] r@[i]@ == texture(self@.piles[i]),
    {
        [
            self.piles[0].get_card_texture_location(),
            self.piles[1].get_card_texture_location(),
            self.piles[2].get_card_texture_location(),
            self.piles[3].get_card_texture_location(),
        ]
    }
}

} // verus!
