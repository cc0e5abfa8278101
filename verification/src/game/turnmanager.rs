use vstd::prelude::*;
use std::collections::HashMap;
use std::collections::HashSet;
use crate::game::cards::{CardEffect, EffectTrait};

verus! {

broadcast use vstd::std_specs::hash::group_hash_axioms;

/// Half of a number, rounded toward zero.
pub open spec fn halved(t: i32) -> i32 {
    if t >= 0 { (t / 2) as i32 } else { (-((-t) / 2)) as i32 }
}

/// The state of the turns as plain values.
pub struct TurnState {
    /// How many turns in a row each player takes (1 or 2).
    pub turnsinarow: u16,
    /// Turns until the deck can be drawn from; never, if `None`.
    pub turnsuntildraw: Option<u32>,
    /// How many ticks a turn lasts; unlimited, if `None`.
    pub tickstotaketurn: Option<u32>,
    pub currentplayer: u8,
    /// How many turns in a row the current player has had before this one.
    pub turnsbefore: u16,
    /// The ticks spent on the current turn.
    pub currentturntick: u32,
    /// Each player's total ticks left.
    pub totaltimeleft: Map<u8, i32>,
}

impl TurnState {
    /// The next turn: the wait for a draw goes down (not below 0), and after
    /// the player's turns in a row the other of players 1 and 2 is on turn.
    pub open spec fn next_turn(self) -> TurnState {
        let before = self.turnsbefore + 1;
        TurnState {
            turnsuntildraw: match self.turnsuntildraw {
                Some(n) => Some(if n > 0 { (n - 1) as u32 } else { 0u32 }),
                None => None,
            },
            turnsbefore: if before >= self.turnsinarow { 0u16 } else { before as u16 },
            currentplayer: if before >= self.turnsinarow {
                if self.currentplayer == 1 { 2u8 } else { 1u8 }
            } else {
                self.currentplayer
            },
            currentturntick: 0,
            ..self
        }
    }

    /// One tick: a tick is spent on the turn, past the turn's length the next
    /// turn starts, and the player then on turn loses a tick of total time.
    pub open spec fn ticked(self) -> TurnState {
        let t = TurnState { currentturntick: (self.currentturntick + 1) as u32, ..self };
        let n = match self.tickstotaketurn {
            Some(l) => if t.currentturntick > l { t.next_turn() } else { t },
            None => t,
        };
        TurnState {
            totaltimeleft: n.totaltimeleft.insert(n.currentplayer, (n.totaltimeleft[n.currentplayer] - 1) as i32),
            ..n
        }
    }

    /// The effects in play: timed turns, double turns, and promoted pawns.
    pub open spec fn effects(self) -> Seq<CardEffect> {
        let timed = match self.tickstotaketurn {
            Some(x) => seq![CardEffect::TurnsTimed(x)],
            None => Seq::empty(),
        };
        let doubled = if self.turnsinarow > 1 { seq![CardEffect::BackToBackTurns] } else { Seq::empty() };
        timed + doubled + seq![CardEffect::PawnsPromoted(true)]
    }

    /// An effect played on the turns: double turns, halved times, timed turns
    /// and the wait for a draw act; every other effect leaves them as they are.
    pub open spec fn with_effect(self, effect: CardEffect) -> TurnState {
        match effect {
            CardEffect::BackToBackTurns => TurnState { turnsinarow: 2, ..self },
            CardEffect::HalveTimeLeft => TurnState {
                totaltimeleft: self.totaltimeleft.map_values(|t: i32| halved(t)),
                ..self
            },
            CardEffect::TurnsTimed(ticks) => TurnState { tickstotaketurn: Some(ticks), ..self },
            CardEffect::TurnsUntilDrawAvailable(turns) => TurnState { turnsuntildraw: Some(turns), ..self },
            _ => self,
        }
    }
}

/// Decides whose turn it is: players 1 and 2 take turns, one or two in a row,
/// each turn possibly timed.
#[derive(Clone)]
pub struct TurnManager {
    turnsinarow: u16,
    turnsuntildraw: Option<u32>,
    tickstotaketurn: Option<u32>,
    currentplayer: u8,
    turnsbefore: u16,
    currentturntick: u32,
    totaltimeleft: HashMap<u8, i32>,
    /// The effects played on the turns so far.
    played: Ghost<Seq<CardEffect>>,
}

impl View for TurnManager {
    type V = TurnState;

    closed spec fn view(&self) -> TurnState {
        TurnState {
            turnsinarow: self.turnsinarow,
            turnsuntildraw: self.turnsuntildraw,
            tickstotaketurn: self.tickstotaketurn,
            currentplayer: self.currentplayer,
            turnsbefore: self.turnsbefore,
            currentturntick: self.currentturntick,
            totaltimeleft: self.totaltimeleft@,
        }
    }
}

/// The players that have a total time, each once.
fn time_keys(m: &HashMap<u8, i32>) -> (keys: Vec<u8>)
    ensures
        keys@.to_set() == m@.dom(),
        keys@.no_duplicates(),
{
    let mut toreturn: Vec<u8> = Vec::new();
    let ghost ks = vstd::std_specs::iter::IteratorSpec::remaining(&vstd::std_specs::hash::spec_keys_iter(m));
    for k in it: m.keys()
        invariant
            it.seq() == ks,
            toreturn@ == ks.take(it.index()).map_values(|x: &u8| *x),
    {
        toreturn.push(*k);
    }
    assert(toreturn@ =~= ks.unref());
    toreturn
}

/// Half of a number, rounded toward zero.
fn halve(t: i32) -> (r: i32)
    ensures
        r == halved(t),
{
    if t >= 0 {
        t / 2
    } else if t == i32::MIN {
        -1073741824
    } else {
        -((-t) / 2)
    }
}

/// Halves every value of the map, rounding toward zero.
fn halve_all(m: &mut HashMap<u8, i32>)
    ensures
        final(m)@ == old(m)@.map_values(|t: i32| halved(t)),
{
    let keys = time_keys(m);
    let ghost before = m@;
    let mut i: usize = 0;
    while i < keys.len()
        invariant
            i <= keys.len(),
            keys@.to_set() == before.dom(),
            keys@.no_duplicates(),
            before == old(m)@,
            m@.dom() == before.dom(),
            forall|k: u8| #[trigger] before.contains_key(k) ==> m@[k] == if keys@.take(i as int).contains(k) {
                halved(before[k])
            } else {
                before[k]
            },
        decreases keys.len() - i,
    {
        let player = keys[i];
        proof {
            assert(keys@.to_set().contains(player));
        }
        let timeleft = *m.get(&player).unwrap();
        m.insert(player, halve(timeleft));
        i = i + 1;
        proof {
            let cur = keys@.take(i as int);
            let prev = keys@.take(i - 1);
            assert forall|k: u8| #[trigger] before.contains_key(k) implies m@[k] == if cur.contains(k) {
                halved(before[k])
            } else {
                before[k]
            } by {
                if k == player {
                    assert(cur[i - 1] == k);
                    assert(!prev.contains(k)) by {
                        if prev.contains(k) {
                            let j = choose|j: int| 0 <= j < prev.len() && prev[j] == k;
                            assert(keys@[j] == keys@[i - 1]);
                        }
                    }
                } else {
                    if cur.contains(k) {
                        let j = choose|j: int| 0 <= j < cur.len() && cur[j] == k;
                        assert(prev[j] == k);
                    }
                    if prev.contains(k) {
                        let j = choose|j: int| 0 <= j < prev.len() && prev[j] == k;
                        assert(cur[j] == k);
                    }
                }
            }
            assert(m@.dom() =~= before.dom());
        }
    }
    proof {
        assert(keys@.take(i as int) =~= keys@);
        assert forall|k: u8| #[trigger] before.contains_key(k) implies keys@.contains(k) by {
            assert(keys@.to_set().contains(k));
        }
        assert(m@ =~= before.map_values(|t: i32| halved(t)));
    }
}

impl EffectTrait for TurnManager {
    open spec fn effects_view(&self) -> Seq<CardEffect> {
        self@.effects()
    }

    closed spec fn played(&self) -> Seq<CardEffect> {
        self.played@
    }

    fn apply_effect(&mut self, effect: CardEffect)
        ensures
            final(self)@ == old(self)@.with_effect(effect),
    {
        match effect {
            CardEffect::BackToBackTurns => {
                self.turnsinarow = 2;
            },
            CardEffect::HalveTimeLeft => {
                halve_all(&mut self.totaltimeleft);
            },
            CardEffect::TurnsTimed(ticks) => {
                self.tickstotaketurn = Some(ticks);
            },
            CardEffect::TurnsUntilDrawAvailable(turns) => {
                self.turnsuntildraw = Some(turns);
            },
            _ => {},
        }
        self.played = Ghost(self.played@.push(effect));
    }

    fn get_effects(&self) -> (r: Vec<CardEffect>) {
        let mut toreturn: Vec<CardEffect> = Vec::new();
        if let Some(x) = self.tickstotaketurn {
            toreturn.push(CardEffect::TurnsTimed(x));
        }
        if self.turnsinarow > 1 {
            toreturn.push(CardEffect::BackToBackTurns);
        }
        toreturn.push(CardEffect::PawnsPromoted(true));
        assert(toreturn@ =~= self@.effects());
        toreturn
    }
}

impl TurnManager {
    /// The effects that concern the turns: none for now.
    fn relevant_effects() -> (r: Vec<CardEffect>)
        ensures
            r@ == Seq::<CardEffect>::empty(),
    {
        Vec::new()
    }

    /// Turns alternate one at a time and lie within their length.
    pub open spec fn wf(&self) -> bool {
        &&& 1 <= self@.turnsinarow <= 2
        &&& self@.turnsbefore < self@.turnsinarow
    }

    /// Player 1 on turn first, one turn each, 100 ticks a turn; each player
    /// has `totalticks` ticks in all (as an `i32`, wrapping as a cast does).
    pub fn new_two_player(player1: u8, player2: u8, totalticks: u32, turnsuntildraw: u32) -> (tm: TurnManager)
        ensures
            tm.wf(),
            tm@ == (TurnState {
                turnsinarow: 1,
                turnsuntildraw: Some(turnsuntildraw),
                tickstotaketurn: Some(100),
                currentplayer: 1,
                turnsbefore: 0,
                currentturntick: 0,
                totaltimeleft: map![player1 => totalticks as i32, player2 => totalticks as i32],
            }),
    {
        let mut totaltimeleft: HashMap<u8, i32> = HashMap::new();
        totaltimeleft.insert(player1, totalticks as i32);
        totaltimeleft.insert(player2, totalticks as i32);
        let tm = TurnManager {
            turnsinarow: 1,
            tickstotaketurn: Some(100),
            turnsuntildraw: Some(turnsuntildraw),
            currentplayer: 1,
            turnsbefore: 0,
            currentturntick: 0,
            totaltimeleft,
            played: Ghost(Seq::empty()),
        };
        assert(tm@.totaltimeleft =~= map![player1 => totalticks as i32, player2 => totalticks as i32]);
        tm
    }

    /// The next turn (see `TurnState::next_turn`).
    fn next_turn(&mut self)
        requires
            old(self).wf(),
        ensures
            final(self).wf(),
            final(self)@ == old(self)@.next_turn(),
    {
        if let Some(untildraw) = self.turnsuntildraw {
            self.turnsuntildraw = Some(untildraw.saturating_sub(1));
        }
        self.turnsbefore = self.turnsbefore + 1;
        if self.turnsbefore >= self.turnsinarow {
            self.turnsbefore = 0;
            if self.currentplayer == 1 {
                self.currentplayer = 2;
            } else {
                self.currentplayer = 1;
            }
        }
        self.currentturntick = 0;
    }

    /// One tick (see `TurnState::ticked`).
    pub fn tick(&mut self)
        requires
            old(self).wf(),
            old(self)@.currentturntick < u32::MAX,
            ({
                let n = old(self)@.ticked();
                old(self)@.totaltimeleft.contains_key(n.currentplayer) && old(self)@.totaltimeleft[n.currentplayer]
                    > i32::MIN
            }),
        ensures
            final(self).wf(),
            final(self)@ == old(self)@.ticked(),
    {
        self.currentturntick = self.currentturntick + 1;
        if let Some(tickstotaketurn) = self.tickstotaketurn {
            if self.currentturntick > tickstotaketurn {
                self.next_turn();
            }
        }
        let timeleft = *self.totaltimeleft.get(&self.currentplayer).unwrap();
        self.totaltimeleft.insert(self.currentplayer, timeleft - 1);
    }

    /// Whether the player may draw: the wait for a draw is over.
    pub fn can_player_draw(&self, playerid: &u8) -> (b: bool)
        ensures
            b == (self@.turnsuntildraw == Some(0u32)),
    {
        if let Some(id) = self.turnsuntildraw {
            if id == 0 {
                return true;
            }
        }
        false
    }

    /// A player drew: the next draw is 3 turns away.
    pub fn player_drew(&mut self)
        ensures
            final(self)@ == (TurnState { turnsuntildraw: Some(3), ..old(self)@ }),
    {
        self.turnsuntildraw = Some(3);
    }

    /// A player acted, which ends the turn.
    pub fn player_took_action(&mut self, playerid: u8)
        requires
            old(self).wf(),
        ensures
            final(self).wf(),
            final(self)@ == old(self)@.next_turn(),
    {
        self.next_turn();
    }

    /// The player on turn.
    pub fn get_current_players(&self) -> (r: HashSet<u8>)
        ensures
            r@ == set![self@.currentplayer],
    {
        let mut toreturn: HashSet<u8> = HashSet::new();
        toreturn.insert(self.currentplayer);
        assert(toreturn@ =~= set![self@.currentplayer]);
        toreturn
    }

    /// For the player on turn with timed turns, the ticks left in the turn
    /// (not below 0); else none.
    pub fn get_ticks_left_for_players_turn(&self, playerid: u8) -> (r: Option<u32>)
        ensures
            r == if playerid == self@.currentplayer && self@.tickstotaketurn is Some {
                let l = self@.tickstotaketurn->0;
                Some(if l > self@.currentturntick { (l - self@.currentturntick) as u32 } else { 0u32 })
            } else {
                None::<u32>
            },
    {
        if playerid == self.currentplayer {
            if let Some(tickstotaketurn) = self.tickstotaketurn {
                return Some(tickstotaketurn.saturating_sub(self.currentturntick));
            }
        }
        None
    }

    /// The player's total ticks left, never below 0.
    pub fn get_players_total_ticks_left(&self, playerid: u8) -> (r: u32)
        requires
            self@.totaltimeleft.contains_key(playerid),
        ensures
            r == if self@.totaltimeleft[playerid] < 0 { 0 } else { self@.totaltimeleft[playerid] as u32 },
    {
        let ticksleft = *self.totaltimeleft.get(&playerid).unwrap();
        if ticksleft < 0 {
            0
        } else {
            ticksleft as u32
        }
    }

    /// Turns until the deck can be drawn from.
    pub fn turns_until_draw(&self) -> (r: Option<u32>)
        ensures
            r == self@.turnsuntildraw,
    {
        self.turnsuntildraw
    }
}

} // verus!

verus! {

/// Players 1 and 2 take turns: with one turn in a row, each turn goes to the
/// other player; with two, a player's first turn is followed by their second
/// and then by the other player's.
pub proof fn lemma_turns_alternate(v: TurnState)
    requires
        1 <= v.turnsinarow <= 2,
        v.turnsbefore < v.turnsinarow,
        v.currentplayer == 1 || v.currentplayer == 2,
    ensures
        v.next_turn().currentplayer == 1 || v.next_turn().currentplayer == 2,
        v.next_turn().turnsbefore < v.next_turn().turnsinarow,
        v.turnsinarow == 1 ==> v.next_turn().currentplayer != v.currentplayer,
        v.turnsinarow == 2 && v.turnsbefore == 0 ==> {
            &&& v.next_turn().currentplayer == v.currentplayer
            &&& v.next_turn().next_turn().currentplayer != v.currentplayer
        },
{
}

} // verus!
