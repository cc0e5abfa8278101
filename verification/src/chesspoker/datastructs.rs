use vstd::prelude::*;
use std::collections::HashMap;
use std::collections::HashSet;
use crate::turnqueue::{
    active_set, base_queue, copy_queue, decrement_entries, has_active, has_last_tick, keep_live_entries,
    lemma_queue_at, lemma_step, lemma_turn_end, live_entries, phase_of, player_at, queue_active_players,
    queue_at, queue_has_active, queue_has_last_tick, queue_ticks_left, ticks_left_of,
};

verus! {

broadcast use vstd::std_specs::hash::group_hash_axioms;

/// Whether `value` lies in one of the half-open ranges `[start, end)`.
pub open spec fn in_some_range(ranges: Seq<(u32, u32)>, value: u32) -> bool {
    exists|i: int| 0 <= i < ranges.len() && (#[trigger] ranges[i]).0 <= value && value < ranges[i].1
}

/// Whether `value` lies in one of the half-open ranges `[start, end)`.
fn is_in_range(ranges: Vec<(u32, u32)>, value: u32) -> (b: bool)
    ensures
        b == in_some_range(ranges@, value),
{
    let mut i: usize = 0;
    while i < ranges.len()
        invariant
            i <= ranges.len(),
            forall|j: int| 0 <= j < i ==> !((#[trigger] ranges@[j]).0 <= value && value < ranges@[j].1),
        decreases ranges.len() - i,
    {
        let (currangestart, currangeend) = ranges[i];
        if value >= currangestart {
            if value < currangeend {
                assert(ranges@[i as int].0 <= value);
                return true;
            }
        }
        i = i + 1;
    }
    false
}

/// How long the first player's turn lasts, in ticks.
pub const FIRST_TURN_TICKS: u32 = 30;

/// How long the second player's turn lasts, in ticks.
pub const SECOND_TURN_TICKS: u32 = 1800;

/// How many ticks each player has for the whole game.
pub const TOTAL_TICKS: i32 = 9000;

/// The turn cycle as plain values: the two players, how far into the cycle of
/// both turns it is, and each player's total time left.
pub struct TurnView {
    pub player1: u8,
    pub player2: u8,
    pub phase: int,
    pub timeleft: Map<u8, i32>,
}

impl TurnView {
    /// The player on turn.
    pub open spec fn current_player(self) -> u8 {
        player_at(self.player1, self.player2, FIRST_TURN_TICKS, self.phase)
    }

    /// One tick later: the cycle moves on, and the player on turn after the
    /// move loses a tick of total time (nobody does as the cycle restarts).
    pub open spec fn ticked(self) -> TurnView {
        let next = self.phase + 1;
        if next < FIRST_TURN_TICKS + SECOND_TURN_TICKS {
            let p = player_at(self.player1, self.player2, FIRST_TURN_TICKS, next);
            TurnView { phase: next, timeleft: self.timeleft.insert(p, (self.timeleft[p] - 1) as i32), ..self }
        } else {
            TurnView { phase: 0, ..self }
        }
    }

    /// After the player on turn acts: a turn of player 1 ends at once, which
    /// costs player 2 a tick; a turn of player 2 ends with the cycle. The acting
    /// player gets one tick back. A player not on turn changes nothing.
    pub open spec fn after_action(self, playerid: u8) -> TurnView {
        if playerid == self.current_player() {
            if self.phase < FIRST_TURN_TICKS {
                let t1 = self.timeleft.insert(self.player2, (self.timeleft[self.player2] - 1) as i32);
                TurnView {
                    phase: FIRST_TURN_TICKS as int,
                    timeleft: t1.insert(playerid, (t1[playerid] + 1) as i32),
                    ..self
                }
            } else {
                TurnView {
                    phase: 0,
                    timeleft: self.timeleft.insert(playerid, (self.timeleft[playerid] + 1) as i32),
                    ..self
                }
            }
        } else {
            self
        }
    }
}

/// Decides whose turn it is: each player's turn, how long it lasts, and each
/// player's total time for the game.
#[derive(Clone, Debug)]
pub struct TurnManager {
    /// Entries `(player, ticks until the turn, ticks left in the turn)`.
    queuedturns: Vec<(u8, u32, u32)>,
    /// The queue that starts each cycle of turns.
    basequeue: Vec<(u8, u32, u32)>,
    /// Each player's total ticks left.
    playertimeleft: HashMap<u8, i32>,
}

impl View for TurnManager {
    type V = TurnView;

    closed spec fn view(&self) -> TurnView {
        TurnView {
            player1: self.basequeue@[0].0,
            player2: self.basequeue@[1].0,
            phase: phase_of(self.queuedturns@, FIRST_TURN_TICKS, SECOND_TURN_TICKS),
            timeleft: self.playertimeleft@,
        }
    }
}

impl TurnManager {
    pub closed spec fn base_ok(&self) -> bool {
        &&& self.basequeue@.len() == 2
        &&& self.basequeue@ == base_queue(self@.player1, self@.player2, FIRST_TURN_TICKS, SECOND_TURN_TICKS)
        &&& self.playertimeleft@.dom() == set![self@.player1, self@.player2]
    }

    /// The turn cycle is in one of its states.
    pub closed spec fn wf(&self) -> bool {
        &&& self.base_ok()
        &&& 0 <= self@.phase < FIRST_TURN_TICKS + SECOND_TURN_TICKS
        &&& self.queuedturns@ == queue_at(self@.player1, self@.player2, FIRST_TURN_TICKS, SECOND_TURN_TICKS, self@.phase)
    }

    pub closed spec fn refilling(&self) -> bool {
        self.base_ok() && self.queuedturns@.len() == 0
    }

    /// The states that the upkeep is called on: a state of the cycle, or one
    /// with a finished entry, or an empty queue.
    pub closed spec fn upkeep_ready(&self) -> bool {
        &&& self.base_ok()
        &&& {
            ||| self.wf()
            ||| self.queuedturns@ == seq![(self@.player1, 0u32, 0u32), (self@.player2, 0u32, SECOND_TURN_TICKS)]
            ||| self.queuedturns@ == seq![(self@.player2, 0u32, 0u32)]
            ||| self.queuedturns@.len() == 0
        }
    }

    /// The phase that the upkeep leads to.
    pub closed spec fn upkeep_phase(&self) -> int {
        if self.wf() {
            self@.phase
        } else if self.queuedturns@ == seq![(self@.player1, 0u32, 0u32), (self@.player2, 0u32, SECOND_TURN_TICKS)] {
            FIRST_TURN_TICKS as int
        } else {
            0
        }
    }

    proof fn lemma_wf_facts(&self)
        requires
            self.wf(),
        ensures
            live_entries(self.queuedturns@) == self.queuedturns@,
            active_set(self.queuedturns@) == set![self@.current_player()],
            has_active(self.queuedturns@),
    {
        lemma_queue_at(self@.player1, self@.player2, FIRST_TURN_TICKS, SECOND_TURN_TICKS, self@.phase);
        assert(self.queuedturns@[0].1 == 0 && self.queuedturns@[0].2 > 0);
    }

    /// Two players, player 1 on turn first; each has 9000 ticks in all.
    pub fn new_two_player(player1: u8, player2: u8) -> (tm: TurnManager)
        ensures
            tm.wf(),
            tm@ == (TurnView {
                player1,
                player2,
                phase: 0,
                timeleft: map![player1 => TOTAL_TICKS, player2 => TOTAL_TICKS],
            }),
    {
        let mut toreturn = TurnManager {
            queuedturns: Vec::new(),
            basequeue: Vec::new(),
            playertimeleft: HashMap::new(),
        };
        toreturn.basequeue.push((player1, 0, FIRST_TURN_TICKS));
        toreturn.basequeue.push((player2, FIRST_TURN_TICKS, SECOND_TURN_TICKS));
        toreturn.playertimeleft.insert(player1, TOTAL_TICKS);
        toreturn.playertimeleft.insert(player2, TOTAL_TICKS);
        assert(toreturn.basequeue@ =~= base_queue(player1, player2, FIRST_TURN_TICKS, SECOND_TURN_TICKS));
        assert(toreturn.playertimeleft@.dom() =~= set![player1, player2]);
        toreturn.tick();
        assert(toreturn@.timeleft =~= map![player1 => TOTAL_TICKS, player2 => TOTAL_TICKS]);
        toreturn
    }

    /// Every state of the cycle is one that the upkeep can be called on.
    pub proof fn lemma_wf_upkeep_ready(&self)
        requires
            self.wf(),
        ensures
            self.upkeep_ready(),
    {
    }

    /// Brings the queue back into the cycle: refills an empty queue from the
    /// base, drops finished entries, and ticks on while nobody is on turn.
    pub fn timeless_upkeep(&mut self)
        requires
            old(self).upkeep_ready(),
        ensures
            final(self).wf(),
            has_active(final(self).queue()),
            active_set(final(self).queue()) == set![final(self)@.current_player()],
            old(self).wf() ==> final(self)@ == old(self)@ && final(self).queue() == old(self).queue(),
            final(self)@ == (TurnView { phase: old(self).upkeep_phase(), ..old(self)@ }),
        decreases 2 * old(self).queue().len(),
    {
        let ghost p1 = self@.player1;
        let ghost p2 = self@.player2;
        proof {
            lemma_turn_end(p1, p2, FIRST_TURN_TICKS, SECOND_TURN_TICKS);
            if self.wf() {
                self.lemma_wf_facts();
            }
        }
        let ghost target = self.upkeep_phase();
        if self.queuedturns.is_empty() {
            self.queuedturns = copy_queue(&self.basequeue);
            proof {
                assert(self.queuedturns@ =~= queue_at(p1, p2, FIRST_TURN_TICKS, SECOND_TURN_TICKS, 0));
                lemma_queue_at(p1, p2, FIRST_TURN_TICKS, SECOND_TURN_TICKS, 0);
            }
        }
        self.queuedturns = keep_live_entries(&self.queuedturns);
        proof {
            lemma_queue_at(p1, p2, FIRST_TURN_TICKS, SECOND_TURN_TICKS, FIRST_TURN_TICKS as int);
            lemma_queue_at(p1, p2, FIRST_TURN_TICKS, SECOND_TURN_TICKS, 0);
        }
        if !self.is_active_turns() {
            proof {
                if self.queuedturns@.len() > 0 {
                    assert(self.wf());
                    self.lemma_wf_facts();
                }
            }
            self.tick();
        }
        proof {
            if self.wf() {
                lemma_queue_at(p1, p2, FIRST_TURN_TICKS, SECOND_TURN_TICKS, self@.phase);
            }
            self.lemma_wf_facts();
        }
    }

    /// One tick: every queued turn moves on, and the player then on turn
    /// loses a tick of total time.
    pub fn tick(&mut self)
        requires
            old(self).wf() || old(self).refilling(),
            old(self).wf() && old(self)@.phase + 1 < FIRST_TURN_TICKS + SECOND_TURN_TICKS ==> old(
                self,
            )@.timeleft[player_at(old(self)@.player1, old(self)@.player2, FIRST_TURN_TICKS, old(self)@.phase + 1)]
                > i32::MIN,
        ensures
            final(self).wf(),
            old(self).wf() ==> final(self)@ == old(self)@.ticked(),
            !old(self).wf() ==> final(self)@ == (TurnView { phase: 0, ..old(self)@ }),
        decreases 2 * old(self).queue().len() + 1,
    {
        let ghost p1 = self@.player1;
        let ghost p2 = self@.player2;
        let ghost t = self@.phase;
        let ghost was_wf = self.wf();
        proof {
            if was_wf {
                lemma_step(p1, p2, FIRST_TURN_TICKS, SECOND_TURN_TICKS, t);
                lemma_queue_at(p1, p2, FIRST_TURN_TICKS, SECOND_TURN_TICKS, t);
            }
        }
        decrement_entries(&mut self.queuedturns);
        let ghost q_after = self.queuedturns@;
        let activeplayers = self.get_current_players();
        let keys = time_keys(&self.playertimeleft);
        let ghost before = self.playertimeleft@;
        let mut i: usize = 0;
        while i < keys.len()
            invariant
                i <= keys.len(),
                keys@.to_set() == before.dom(),
                keys@.no_duplicates(),
                self.queuedturns@ == q_after,
                self.basequeue@ == old(self).basequeue@,
                self.playertimeleft@.dom() == before.dom(),
                forall|k: u8| #[trigger] activeplayers@.contains(k) && before.contains_key(k) ==> before[k] > i32::MIN,
                forall|k: u8| #[trigger] before.contains_key(k) ==> self.playertimeleft@[k] == if activeplayers@.contains(k)
                    && keys@.take(i as int).contains(k) {
                    (before[k] - 1) as i32
                } else {
                    before[k]
                },
            decreases keys.len() - i,
        {
            let player = keys[i];
            proof {
                assert(keys@.to_set().contains(player));
            }
            if activeplayers.contains(&player) {
                let timeleft = *self.playertimeleft.get(&player).unwrap();
                self.playertimeleft.insert(player, timeleft - 1);
            }
            i = i + 1;
            proof {
                let cur = keys@.take(i as int);
                let prev = keys@.take(i - 1);
                assert forall|k: u8| #[trigger] before.contains_key(k) implies self.playertimeleft@[k] == if activeplayers@.contains(k)
                    && cur.contains(k) {
                    (before[k] - 1) as i32
                } else {
                    before[k]
                } by {
                    if k == player {
                        assert(cur[i - 1] == k);
                        assert(!prev.contains(k)) by {
                            if prev.contains(k) {
                                let j = choose|j: int| 0 <= j < prev.len() && prev[j] == k;
                                assert(keys@[j] == keys@[i - 1]);
                            }
                        }
                    } else {
                        if cur.contains(k) {
                            let j = choose|j: int| 0 <= j < cur.len() && cur[j] == k;
                            assert(prev[j] == k);
                        }
                        if prev.contains(k) {
                            let j = choose|j: int| 0 <= j < prev.len() && prev[j] == k;
                            assert(cur[j] == k);
                        }
                    }
                }
            }
        }
        proof {
            assert(self.queuedturns@.len() == old(self).queuedturns@.len());
            assert(keys@.take(i as int) =~= keys@);
            assert forall|k: u8| #[trigger] before.contains_key(k) implies keys@.contains(k) by {
                assert(keys@.to_set().contains(k));
            }
            if was_wf && t + 1 < FIRST_TURN_TICKS + SECOND_TURN_TICKS {
                let p = player_at(p1, p2, FIRST_TURN_TICKS, t + 1);
                assert(self.playertimeleft@ =~= before.insert(p, (before[p] - 1) as i32));
            } else {
                assert(self.playertimeleft@ =~= before);
            }
            lemma_turn_end(p1, p2, FIRST_TURN_TICKS, SECOND_TURN_TICKS);
            if was_wf && t + 1 < FIRST_TURN_TICKS + SECOND_TURN_TICKS && t + 1 != FIRST_TURN_TICKS {
                lemma_queue_at(p1, p2, FIRST_TURN_TICKS, SECOND_TURN_TICKS, t + 1);
            }
            if !was_wf {
                assert(self.queuedturns@ =~= Seq::<(u8, u32, u32)>::empty());
            }
            assert(self.playertimeleft@.dom() =~= set![p1, p2]);
        }
        self.timeless_upkeep();
    }

    /// Whether some player is on turn.
    pub fn is_active_turns(&self) -> (b: bool)
        ensures
            b == has_active(self.queue()),
            self.wf() ==> b,
    {
        proof {
            if self.wf() {
                self.lemma_wf_facts();
            }
        }
        queue_has_active(&self.queuedturns)
    }

    /// The queued entries.
    pub closed spec fn queue(&self) -> Seq<(u8, u32, u32)> {
        self.queuedturns@
    }

    /// The player acts, which ends their turn: ticks on until they are no longer
    /// on turn, giving back each tick of their own total time that this takes.
    pub fn player_took_action(&mut self, playerid: u8)
        requires
            old(self).wf(),
            old(self)@.player1 != old(self)@.player2,
            forall|p: u8| #[trigger] old(self)@.timeleft.contains_key(p) ==> i32::MIN + 1 < old(self)@.timeleft[p] < i32::MAX,
        ensures
            final(self).wf(),
            final(self)@ == old(self)@.after_action(playerid),
    {
        let ghost start = self@;
        let ghost p1 = self@.player1;
        let ghost p2 = self@.player2;
        let ghost mut remaining: int = if playerid == self@.current_player() {
            if self@.phase < FIRST_TURN_TICKS { FIRST_TURN_TICKS - self@.phase } else { FIRST_TURN_TICKS
                + SECOND_TURN_TICKS - self@.phase }
        } else {
            0
        };
        proof {
            self.lemma_wf_facts();
        }
        while self.get_current_players().contains(&playerid)
            invariant
                self.wf(),
                self@.player1 == p1,
                self@.player2 == p2,
                p1 != p2,
                start.player1 == p1 && start.player2 == p2,
                0 <= start.phase < FIRST_TURN_TICKS + SECOND_TURN_TICKS,
                remaining >= 0,
                start.phase < FIRST_TURN_TICKS ==> remaining <= FIRST_TURN_TICKS - start.phase,
                start.phase >= FIRST_TURN_TICKS ==> remaining <= FIRST_TURN_TICKS + SECOND_TURN_TICKS - start.phase,
                playerid != start.current_player() ==> remaining == 0 && self@ == start,
                playerid == start.current_player() && remaining == 0 ==> self@ == start.after_action(playerid),
                playerid == start.current_player() && remaining > 0 ==> {
                    &&& self@.timeleft == start.timeleft
                    &&& start.phase < FIRST_TURN_TICKS ==> self@.phase == FIRST_TURN_TICKS - remaining
                    &&& start.phase >= FIRST_TURN_TICKS ==> self@.phase == FIRST_TURN_TICKS + SECOND_TURN_TICKS
                        - remaining
                },
                forall|p: u8| #[trigger] start.timeleft.contains_key(p) ==> i32::MIN + 1 < start.timeleft[p] < i32::MAX,
                start.timeleft.dom() == set![p1, p2],
            decreases remaining,
        {
            proof {
                self.lemma_wf_facts();
                assert(playerid == self@.current_player());
                assert(playerid == start.current_player());
                assert(remaining > 0);
                assert(start.timeleft.contains_key(p1));
                assert(start.timeleft.contains_key(p2));
            }
            self.tick();
            let timeleft = *self.playertimeleft.get(&playerid).unwrap();
            self.playertimeleft.insert(playerid, timeleft + 1);
            proof {
                remaining = remaining - 1;
                let fin = start.after_action(playerid);
                if remaining > 0 {
                    assert(self@.timeleft =~= start.timeleft);
                } else {
                    assert(self@.timeleft =~= fin.timeleft);
                    assert(self@.phase == fin.phase);
                }
                assert(self.playertimeleft@.dom() =~= set![p1, p2]);
            }
        }
        proof {
            self.lemma_wf_facts();
            if playerid == start.current_player() && remaining > 0 {
                if start.phase < FIRST_TURN_TICKS {
                    assert(start.current_player() == p1);
                    assert(self@.phase < FIRST_TURN_TICKS);
                    assert(self@.current_player() == p1);
                } else {
                    assert(start.current_player() == p2);
                    assert(self@.phase >= FIRST_TURN_TICKS);
                    assert(self@.current_player() == p2);
                }
            }
        }
    }

    /// The players on turn.
    pub fn get_current_players(&self) -> (r: HashSet<u8>)
        ensures
            r@ == active_set(self.queue()),
            self.wf() ==> r@ == set![self@.current_player()],
    {
        proof {
            if self.wf() {
                self.lemma_wf_facts();
            }
        }
        queue_active_players(&self.queuedturns)
    }

    /// Whether some turn of this player has at most one tick left.
    pub fn is_it_this_players_turns_last_tick(&self, playerid: u8) -> (b: bool)
        ensures
            b == has_last_tick(self.queue(), playerid),
            self.wf() ==> b == ((playerid == self@.current_player() && (if self@.phase < FIRST_TURN_TICKS {
                FIRST_TURN_TICKS - self@.phase
            } else {
                FIRST_TURN_TICKS + SECOND_TURN_TICKS - self@.phase
            }) <= 1) || (self@.phase < FIRST_TURN_TICKS && playerid == self@.player2 && SECOND_TURN_TICKS <= 1)),
    {
        proof {
            if self.wf() {
                let q = self.queuedturns@;
                if self@.phase < FIRST_TURN_TICKS {
                    assert(has_last_tick(q, playerid) ==> (q[0].0 == playerid && q[0].2 <= 1) || (q[1].0 == playerid && q[1].2 <= 1));
                    if q[0].0 == playerid && q[0].2 <= 1 { assert(q[0].2 <= 1); }
                    if q[1].0 == playerid && q[1].2 <= 1 { assert(q[1].2 <= 1); }
                } else {
                    if q[0].0 == playerid && q[0].2 <= 1 { assert(q[0].2 <= 1); }
                }
            }
        }
        queue_has_last_tick(&self.queuedturns, playerid)
    }

    /// If this player is on turn, how many ticks of the turn are left.
    pub fn get_ticks_left_for_players_turn(&self, playerid: u8) -> (r: Option<u32>)
        ensures
            r == ticks_left_of(self.queue(), playerid),
            self.wf() ==> r == (if playerid == self@.current_player() {
                Some(
                    (if self@.phase < FIRST_TURN_TICKS {
                        FIRST_TURN_TICKS - self@.phase
                    } else {
                        FIRST_TURN_TICKS + SECOND_TURN_TICKS - self@.phase
                    }) as u32,
                )
            } else {
                None
            }),
    {
        proof {
            if self.wf() {
                let q = self.queuedturns@;
                reveal_with_fuel(ticks_left_of, 3);
                if self@.phase < FIRST_TURN_TICKS {
                    assert(q.drop_first() =~= seq![q[1]]);
                    assert(q.drop_first().drop_first() =~= Seq::<(u8, u32, u32)>::empty());
                } else {
                    assert(q.drop_first() =~= Seq::<(u8, u32, u32)>::empty());
                }
            }
        }
        queue_ticks_left(&self.queuedturns, playerid)
    }

    /// The player's total ticks left, never below 0.
    pub fn get_players_total_ticks_left(&self, playerid: u8) -> (r: u32)
        requires
            self@.timeleft.contains_key(playerid),
        ensures
            r == if self@.timeleft[playerid] < 0 { 0 } else { self@.timeleft[playerid] as u32 },
    {
        let ticksleft = *self.playertimeleft.get(&playerid).unwrap();
        if ticksleft < 0 {
            0
        } else {
            ticksleft as u32
        }
    }
}

/// Runs players 1 and 2 through thirty ticks and an action by player 2, and
/// checks who is on turn at each step: player 1 at the start, player 2 once
/// the thirty ticks of the first turn are over, and player 1 again after
/// player 2 acts.
pub fn test_turn_manager() {
    let mut turnmanager = TurnManager::new_two_player(1, 2);
    let active = turnmanager.is_active_turns();
    assert(active);
    let currentplayers = turnmanager.get_current_players();
    assert(currentplayers@ == set![1u8]);
    let mut x: u32 = 0;
    while x < 30
        invariant
            x <= 30,
            turnmanager.wf(),
            turnmanager@ == (TurnView {
                player1: 1,
                player2: 2,
                phase: x as int,
                timeleft: if x < 30 {
                    map![1u8 => (TOTAL_TICKS - x) as i32, 2u8 => TOTAL_TICKS]
                } else {
                    map![1u8 => (TOTAL_TICKS - 29) as i32, 2u8 => (TOTAL_TICKS - 1) as i32]
                },
            }),
        decreases 30 - x,
    {
        turnmanager.tick();
        x = x + 1;
        proof {
            if x < 30 {
                assert(turnmanager@.timeleft =~= map![1u8 => (TOTAL_TICKS - x) as i32, 2u8 => TOTAL_TICKS]);
            } else {
                assert(turnmanager@.timeleft =~= map![1u8 => (TOTAL_TICKS - 29) as i32, 2u8 => (TOTAL_TICKS - 1) as i32]);
            }
        }
    }
    let currentplayers = turnmanager.get_current_players();
    assert(currentplayers@ == set![2u8]);
    turnmanager.player_took_action(2);
    let currentplayers = turnmanager.get_current_players();
    assert(currentplayers@ == set![1u8]);
}

/// The players that have a total time, each once.
fn time_keys(m: &HashMap<u8, i32>) -> (keys: Vec<u8>)
    ensures
        keys@.to_set() == m@.dom(),
        keys@.no_duplicates(),
{
    let mut toreturn: Vec<u8> = Vec::new();
    let ghost ks = vstd::std_specs::iter::IteratorSpec::remaining(&vstd::std_specs::hash::spec_keys_iter(m));
    for k in it: m.keys()
        invariant
            it.seq() == ks,
            toreturn@ == ks.take(it.index()).map_values(|x: &u8| *x),
    {
        toreturn.push(*k);
    }
    assert(toreturn@ =~= ks.unref());
    toreturn
}

/// Settings of a game: how many cards are drawn at the start of a turn and by
/// the draw action (0: none).
pub struct GameSettings {
    cardsdrawnatstartofturn: u8,
    cardsdrawnbyaction: u8,
}

impl GameSettings {
    pub closed spec fn drawn_at_start(&self) -> u8 {
        self.cardsdrawnatstartofturn
    }

    pub closed spec fn drawn_by_action(&self) -> u8 {
        self.cardsdrawnbyaction
    }

    /// No cards drawn at all.
    pub fn new() -> (s: GameSettings)
        ensures
            s.drawn_at_start() == 0,
            s.drawn_by_action() == 0,
    {
        GameSettings { cardsdrawnatstartofturn: 0, cardsdrawnbyaction: 0 }
    }
}

} // verus!

verus! {

/// The cycle after `n` ticks.
pub open spec fn ticked_times(v: TurnView, n: nat) -> TurnView
    decreases n,
{
    if n == 0 {
        v
    } else {
        ticked_times(v, (n - 1) as nat).ticked()
    }
}

/// `n` ticks move the cycle `n` phases on, round the cycle of both turns.
pub proof fn lemma_ticks_phase(v: TurnView, n: nat)
    requires
        0 <= v.phase < FIRST_TURN_TICKS + SECOND_TURN_TICKS,
    ensures
        ticked_times(v, n).phase == (v.phase + n) % ((FIRST_TURN_TICKS + SECOND_TURN_TICKS) as int),
        ticked_times(v, n).player1 == v.player1,
        ticked_times(v, n).player2 == v.player2,
    decreases n,
{
    let m = (FIRST_TURN_TICKS + SECOND_TURN_TICKS) as int;
    if n == 0 {
        assert(v.phase % m == v.phase) by (nonlinear_arith)
            requires
                0 <= v.phase < m,
        ;
    } else {
        lemma_ticks_phase(v, (n - 1) as nat);
        let prev = ticked_times(v, (n - 1) as nat);
        let q = v.phase + n - 1;
        assert(prev.phase == q % m);
        assert(ticked_times(v, n) == prev.ticked());
        assert((q + 1) % m == if q % m + 1 < m { q % m + 1 } else { 0 }) by (nonlinear_arith)
            requires
                m > 0,
                q >= 0,
        ;
    }
}

/// After the ticks of both turns the cycle is back where it was, with the
/// same player on turn.
pub proof fn lemma_ticks_go_round(v: TurnView)
    requires
        0 <= v.phase < FIRST_TURN_TICKS + SECOND_TURN_TICKS,
    ensures
        ticked_times(v, (FIRST_TURN_TICKS + SECOND_TURN_TICKS) as nat).phase == v.phase,
        ticked_times(v, (FIRST_TURN_TICKS + SECOND_TURN_TICKS) as nat).current_player() == v.current_player(),
{
    let m = (FIRST_TURN_TICKS + SECOND_TURN_TICKS) as int;
    lemma_ticks_phase(v, m as nat);
    assert((v.phase + m) % m == v.phase) by (nonlinear_arith)
        requires
            0 <= v.phase < m,
    ;
}

/// When the player on turn acts, the turn passes to the other player; a
/// player not on turn acting changes nothing.
pub proof fn lemma_action_passes_turn(v: TurnView, playerid: u8)
    requires
        0 <= v.phase < FIRST_TURN_TICKS + SECOND_TURN_TICKS,
        v.player1 != v.player2,
    ensures
        playerid == v.current_player() ==> v.after_action(playerid).current_player() != playerid,
        playerid != v.current_player() ==> v.after_action(playerid) == v,
{
}

} // verus!
