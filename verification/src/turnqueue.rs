use vstd::prelude::*;

verus! {

// A queue of turns holds entries `(player, ticks until the turn, ticks left in
// the turn)`. With two players whose turns last `a` and `b` ticks, starting
// from the base queue `[(p1, 0, a), (p2, a, b)]`, the queue only ever takes the
// shapes below: one for each tick `t` of the cycle of `a + b` ticks.

/// The queue `t` ticks into the cycle.
pub open spec fn queue_at(p1: u8, p2: u8, a: u32, b: u32, t: int) -> Seq<(u8, u32, u32)> {
    if t < a {
        seq![(p1, 0u32, (a - t) as u32), (p2, (a - t) as u32, b)]
    } else {
        seq![(p2, 0u32, (a + b - t) as u32)]
    }
}

/// The base queue, from which the cycle starts again.
pub open spec fn base_queue(p1: u8, p2: u8, a: u32, b: u32) -> Seq<(u8, u32, u32)> {
    seq![(p1, 0u32, a), (p2, a, b)]
}

/// How far into the cycle a queue of the shapes above is.
pub open spec fn phase_of(q: Seq<(u8, u32, u32)>, a: u32, b: u32) -> int {
    if q.len() == 2 {
        a - q[0].2
    } else {
        a + b - q[0].2
    }
}

/// Turn lengths for which the cycle is well defined.
pub open spec fn valid_lengths(a: u32, b: u32) -> bool {
    a > 0 && b > 0 && a + b < u32::MAX
}

/// The player whose turn it is `t` ticks into the cycle.
pub open spec fn player_at(p1: u8, p2: u8, a: u32, t: int) -> u8 {
    if t < a { p1 } else { p2 }
}

/// One tick of one entry: the wait goes down, or else the turn's time left.
pub open spec fn step_entry(e: (u8, u32, u32)) -> (u8, u32, u32) {
    if e.1 > 0 {
        (e.0, (e.1 - 1) as u32, e.2)
    } else {
        (e.0, e.1, (e.2 - 1) as u32)
    }
}

/// One tick of every entry.
pub open spec fn decremented(q: Seq<(u8, u32, u32)>) -> Seq<(u8, u32, u32)> {
    q.map_values(|e: (u8, u32, u32)| step_entry(e))
}

/// The entries that still have time left.
pub open spec fn live_entries(q: Seq<(u8, u32, u32)>) -> Seq<(u8, u32, u32)> {
    q.filter(|e: (u8, u32, u32)| e.2 > 0)
}

/// The players whose turn it is: no wait and time left.
pub open spec fn active_set(q: Seq<(u8, u32, u32)>) -> Set<u8> {
    Set::new(|p: u8| exists|i: int| 0 <= i < q.len() && (#[trigger] q[i]).0 == p && q[i].1 == 0 && q[i].2 > 0)
}

/// Every queue of the cycle has the phase it is built for, only entries with
/// time left, and exactly the player of that phase on turn.
pub proof fn lemma_queue_at(p1: u8, p2: u8, a: u32, b: u32, t: int)
    requires
        valid_lengths(a, b),
        0 <= t < a + b,
    ensures
        phase_of(queue_at(p1, p2, a, b, t), a, b) == t,
        live_entries(queue_at(p1, p2, a, b, t)) == queue_at(p1, p2, a, b, t),
        active_set(queue_at(p1, p2, a, b, t)) == set![player_at(p1, p2, a, t)],
        queue_at(p1, p2, a, b, t).len() > 0,
{
    let q = queue_at(p1, p2, a, b, t);
    reveal_with_fuel(Seq::<(u8, u32, u32)>::filter, 3);
    if t < a {
        assert(q.drop_last().drop_last() =~= Seq::<(u8, u32, u32)>::empty());
        assert(q.drop_last() =~= seq![q[0]]);
    } else {
        assert(q.drop_last() =~= Seq::<(u8, u32, u32)>::empty());
    }
    assert(live_entries(q) =~= q);
    assert(active_set(q) =~= set![player_at(p1, p2, a, t)]) by {
        assert(q[0].0 == player_at(p1, p2, a, t));
    }
}

/// What one tick does to the queue of phase `t`: it becomes the queue of the
/// next phase, except at the end of a turn, where the finished entry is still
/// there with no time left (and the queue is empty once it is dropped).
pub proof fn lemma_step(p1: u8, p2: u8, a: u32, b: u32, t: int)
    requires
        valid_lengths(a, b),
        0 <= t < a + b,
    ensures
        t + 1 < a ==> decremented(queue_at(p1, p2, a, b, t)) == queue_at(p1, p2, a, b, t + 1),
        t + 1 == a ==> decremented(queue_at(p1, p2, a, b, t)) == seq![(p1, 0u32, 0u32), (p2, 0u32, b)],
        a <= t && t + 1 < a + b ==> decremented(queue_at(p1, p2, a, b, t)) == queue_at(p1, p2, a, b, t + 1),
        t + 1 == a + b ==> decremented(queue_at(p1, p2, a, b, t)) == seq![(p2, 0u32, 0u32)],
        t + 1 < a + b ==> active_set(decremented(queue_at(p1, p2, a, b, t))) == set![player_at(p1, p2, a, t + 1)],
        t + 1 == a + b ==> active_set(decremented(queue_at(p1, p2, a, b, t))) == Set::<u8>::empty(),
{
    let q = queue_at(p1, p2, a, b, t);
    let d = decremented(q);
    if t + 1 < a {
        assert(d =~= queue_at(p1, p2, a, b, t + 1));
        lemma_queue_at(p1, p2, a, b, t + 1);
    } else if t + 1 == a {
        assert(d =~= seq![(p1, 0u32, 0u32), (p2, 0u32, b)]);
        assert(active_set(d) =~= set![p2]) by {
            assert(d[1].0 == p2);
        }
    } else if t + 1 < a + b {
        assert(d =~= queue_at(p1, p2, a, b, t + 1));
        lemma_queue_at(p1, p2, a, b, t + 1);
    } else {
        assert(d =~= seq![(p2, 0u32, 0u32)]);
        assert(active_set(d) =~= Set::<u8>::empty());
    }
}

/// Dropping the finished entry at the end of the first turn leaves the queue
/// of the second turn; at the end of the second, nothing.
pub proof fn lemma_turn_end(p1: u8, p2: u8, a: u32, b: u32)
    requires
        valid_lengths(a, b),
    ensures
        live_entries(seq![(p1, 0u32, 0u32), (p2, 0u32, b)]) == queue_at(p1, p2, a, b, a as int),
        live_entries(seq![(p2, 0u32, 0u32)]) == Seq::<(u8, u32, u32)>::empty(),
        live_entries(Seq::<(u8, u32, u32)>::empty()) == Seq::<(u8, u32, u32)>::empty(),
{
    reveal_with_fuel(Seq::<(u8, u32, u32)>::filter, 3);
    let q = seq![(p1, 0u32, 0u32), (p2, 0u32, b)];
    assert(q.drop_last() =~= seq![(p1, 0u32, 0u32)]);
    assert(q.drop_last().drop_last() =~= Seq::<(u8, u32, u32)>::empty());
    assert(live_entries(q) =~= queue_at(p1, p2, a, b, a as int));
    let r = seq![(p2, 0u32, 0u32)];
    assert(r.drop_last() =~= Seq::<(u8, u32, u32)>::empty());
    assert(live_entries(r) =~= Seq::<(u8, u32, u32)>::empty());
}

/// Keeps the entries with time left, in order.
pub fn keep_live_entries(q: &Vec<(u8, u32, u32)>) -> (r: Vec<(u8, u32, u32)>)
    ensures
        r@ == live_entries(q@),
{
    let mut r: Vec<(u8, u32, u32)> = Vec::new();
    let mut i: usize = 0;
    while i < q.len()
        invariant
            i <= q.len(),
            r@ == live_entries(q@.take(i as int)),
        decreases q.len() - i,
    {
        proof {
            reveal_with_fuel(Seq::<(u8, u32, u32)>::filter, 1);
            assert(q@.take(i + 1).drop_last() =~= q@.take(i as int));
        }
        if q[i].2 > 0 {
            r.push(q[i]);
        }
        i = i + 1;
    }
    assert(q@.take(i as int) =~= q@);
    r
}

/// Ticks every entry once.
pub fn decrement_entries(q: &mut Vec<(u8, u32, u32)>)
    requires
        forall|i: int| 0 <= i < old(q)@.len() ==> (#[trigger] old(q)@[i]).1 > 0 || old(q)@[i].2 > 0,
    ensures
        final(q)@ == decremented(old(q)@),
{
    let mut i: usize = 0;
    while i < q.len()
        invariant
            i <= q.len(),
            q@.len() == old(q)@.len(),
            forall|j: int| 0 <= j < i ==> q@[j] == step_entry(old(q)@[j]),
            forall|j: int| i <= j < q@.len() ==> q@[j] == old(q)@[j],
            forall|j: int| 0 <= j < old(q)@.len() ==> (#[trigger] old(q)@[j]).1 > 0 || old(q)@[j].2 > 0,
        decreases q.len() - i,
    {
        let e = q[i];
        let stepped = if e.1 > 0 { (e.0, e.1 - 1, e.2) } else { (e.0, e.1, e.2 - 1) };
        q.set(i, stepped);
        i = i + 1;
    }
    assert(q@ =~= decremented(old(q)@));
}

} // verus!

verus! {

/// A copy of the queue.
pub fn copy_queue(q: &Vec<(u8, u32, u32)>) -> (r: Vec<(u8, u32, u32)>)
    ensures
        r@ == q@,
{
    let mut r: Vec<(u8, u32, u32)> = Vec::new();
    let mut i: usize = 0;
    while i < q.len()
        invariant
            i <= q.len(),
            r@ == q@.take(i as int),
        decreases q.len() - i,
    {
        r.push(q[i]);
        i = i + 1;
        assert(r@ =~= q@.take(i as int));
    }
    assert(q@.take(i as int) =~= q@);
    r
}

/// Whether some entry of the queue is on turn.
pub open spec fn has_active(q: Seq<(u8, u32, u32)>) -> bool {
    exists|i: int| 0 <= i < q.len() && (#[trigger] q[i]).1 == 0 && q[i].2 > 0
}

/// Whether some entry of the queue is on turn.
pub fn queue_has_active(q: &Vec<(u8, u32, u32)>) -> (b: bool)
    ensures
        b == has_active(q@),
{
    let mut isactiveturn = false;
    let mut i: usize = 0;
    while i < q.len()
        invariant
            i <= q.len(),
            isactiveturn == exists|j: int| 0 <= j < i && (#[trigger] q@[j]).1 == 0 && q@[j].2 > 0,
        decreases q.len() - i,
    {
        let (_, timeuntil, timeleft) = q[i];
        if timeuntil == 0 && timeleft > 0 {
            isactiveturn = true;
        }
        i = i + 1;
    }
    isactiveturn
}

/// The players on turn.
pub fn queue_active_players(q: &Vec<(u8, u32, u32)>) -> (r: std::collections::HashSet<u8>)
    ensures
        r@ == active_set(q@),
{
    let mut activeplayers: std::collections::HashSet<u8> = std::collections::HashSet::new();
    let mut i: usize = 0;
    while i < q.len()
        invariant
            i <= q.len(),
            activeplayers@ == Set::new(|p: u8| exists|j: int| 0 <= j < i && (#[trigger] q@[j]).0 == p && q@[j].1 == 0 && q@[j].2 > 0),
        decreases q.len() - i,
    {
        let (playerid, timeuntil, timeleft) = q[i];
        let ghost before = activeplayers@;
        if timeuntil == 0 && timeleft > 0 {
            activeplayers.insert(playerid);
        }
        i = i + 1;
        assert(activeplayers@ =~= Set::new(|p: u8| exists|j: int| 0 <= j < i && (#[trigger] q@[j]).0 == p && q@[j].1 == 0 && q@[j].2 > 0)) by {
            assert forall|p: u8| activeplayers@.contains(p) implies exists|j: int| 0 <= j < i && (#[trigger] q@[j]).0 == p && q@[j].1 == 0 && q@[j].2 > 0 by {
                if !before.contains(p) {
                    assert(q@[i - 1].0 == p);
                }
            }
        }
    }
    assert(activeplayers@ =~= active_set(q@));
    activeplayers
}

/// Whether the queue shows a turn on its last tick for this player: some
/// entry of the player with at most one tick left.
pub open spec fn has_last_tick(q: Seq<(u8, u32, u32)>, playerid: u8) -> bool {
    exists|i: int| 0 <= i < q.len() && (#[trigger] q[i]).0 == playerid && q[i].2 <= 1
}

/// Whether the queue shows a turn on its last tick for this player.
pub fn queue_has_last_tick(q: &Vec<(u8, u32, u32)>, playerid: u8) -> (b: bool)
    ensures
        b == has_last_tick(q@, playerid),
{
    let mut i: usize = 0;
    while i < q.len()
        invariant
            i <= q.len(),
            forall|j: int| 0 <= j < i ==> !((#[trigger] q@[j]).0 == playerid && q@[j].2 <= 1),
        decreases q.len() - i,
    {
        if q[i].0 == playerid && q[i].2 <= 1 {
            assert(q@[i as int].0 == playerid);
            return true;
        }
        i = i + 1;
    }
    false
}

/// The time left of the first entry of this player that is on turn.
pub open spec fn ticks_left_of(q: Seq<(u8, u32, u32)>, playerid: u8) -> Option<u32>
    decreases q.len(),
{
    if q.len() == 0 {
        None
    } else if q[0].0 == playerid && q[0].1 == 0 {
        Some(q[0].2)
    } else {
        ticks_left_of(q.drop_first(), playerid)
    }
}

/// The time left of the first entry of this player that is on turn.
pub fn queue_ticks_left(q: &Vec<(u8, u32, u32)>, playerid: u8) -> (r: Option<u32>)
    ensures
        r == ticks_left_of(q@, playerid),
{
    let mut i: usize = 0;
    assert(q@.skip(0) =~= q@);
    while i < q.len()
        invariant
            i <= q.len(),
            ticks_left_of(q@, playerid) == ticks_left_of(q@.skip(i as int), playerid),
        decreases q.len() - i,
    {
        assert(q@.skip(i as int).drop_first() =~= q@.skip(i + 1));
        if q[i].0 == playerid && q[i].1 == 0 {
            return Some(q[i].2);
        }
        i = i + 1;
    }
    None
}

} // verus!
