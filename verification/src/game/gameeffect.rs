use vstd::prelude::*;
use crate::game::cards::{all_effects, apply_to_all, collect_effects, effect_textures, texture, CardEffect, EffectTrait};

verus! {

/// The effects in play on the parts, one part after the other.
pub fn get_card_effects(x: Vec<&dyn EffectTrait>) -> (r: Vec<CardEffect>)
    ensures
        r@ == all_effects(x@),
{
    collect_effects(&x)
}

/// The pictures of the effects in play on the parts.
pub fn get_card_effect_textures(x: Vec<&dyn EffectTrait>) -> (r: Vec<String>)
    ensures
        r@.len() == all_effects(x@).len(),
        forall|i: int| 0 <= i < r@.len() ==> #[trigger] r@[i]@ == texture(all_effects(x@)[i]),
{
    let effects = get_card_effects(x);
    effect_textures(&effects)
}

/// Plays an effect on each of the parts; gives back the effect's picture.
pub fn set_card_effect(effect: CardEffect, x: Vec<&mut dyn EffectTrait>) -> (s: String)
    ensures
        forall|i: int| 0 <= i < x@.len() ==> (*final(#[trigger] x@[i])).played() == (*x@[i]).played().push(effect),
        s@ == texture(effect),
{
    apply_to_all(effect, x);
    effect.get_card_texture_location()
}

/// Draws a card and plays it on the parts: every draw drops 2 squares.
pub fn draw(x: Vec<&mut dyn EffectTrait>) -> (s: String)
    ensures
        forall|i: int| 0 <= i < x@.len() ==> (*final(#[trigger] x@[i])).played() == (*x@[i]).played().push(CardEffect::RemoveSquares(2)),
        s@ == texture(CardEffect::RemoveSquares(2)),
{
    let effect = CardEffect::RemoveSquares(2);
    set_card_effect(effect, x)
}

} // verus!
