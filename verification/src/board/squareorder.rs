use vstd::prelude::*;
use std::collections::HashSet;

verus! {

broadcast use vstd::std_specs::hash::group_hash_axioms;

/// The squares `(x, y)` with both coordinates in `lo..hi`.
pub open spec fn block_set(lo: int, hi: int) -> Set<(i8, i8)> {
    Set::new(|p: (i8, i8)| lo <= p.0 < hi && lo <= p.1 < hi)
}

/// Whether `b` lists the squares with both coordinates in `lo..hi`, each
/// once, in some order.
pub open spec fn lists_block(b: Seq<(i8, i8)>, lo: int, hi: int) -> bool {
    b.no_duplicates() && b.to_set() == block_set(lo, hi)
}

/// The number of a square with coordinates in `-8..16`.
spec fn code_of(x: int, y: int) -> int {
    (x + 8) * 24 + (y + 8)
}

/// The square a number stands for.
spec fn square_of(c: int) -> (int, int) {
    (c / 24 - 8, c % 24 - 8)
}

proof fn lemma_code_square(x: int, y: int)
    requires
        -8 <= x < 16,
        -8 <= y < 16,
    ensures
        0 <= code_of(x, y) < 576,
        square_of(code_of(x, y)) == (x, y),
{
    let c = code_of(x, y);
    assert(c / 24 == x + 8 && c % 24 == y + 8) by (nonlinear_arith)
        requires
            c == (x + 8) * 24 + (y + 8),
            0 <= y + 8 < 24,
            0 <= x + 8 < 24,
    ;
}

proof fn lemma_square_code(c: int)
    requires
        0 <= c < 576,
    ensures
        code_of(square_of(c).0, square_of(c).1) == c,
        -8 <= square_of(c).0 < 16,
        -8 <= square_of(c).1 < 16,
{
    assert(c == (c / 24) * 24 + c % 24 && 0 <= c % 24 < 24 && 0 <= c / 24 < 24) by (nonlinear_arith)
        requires
            0 <= c < 576,
    ;
}

/// The members of a set in the order the set gives them, each once.
fn set_members(s: &HashSet<u16>) -> (keys: Vec<u16>)
    ensures
        keys@.to_set() == s@,
        keys@.no_duplicates(),
{
    let mut toreturn: Vec<u16> = Vec::new();
    let ghost ks = vstd::std_specs::iter::IteratorSpec::remaining(&vstd::std_specs::hash::spec_hash_keys_iter(s));
    for k in it: s.iter()
        invariant
            it.seq() == ks,
            toreturn@ == ks.take(it.index()).map_values(|x: &u16| *x),
    {
        toreturn.push(*k);
    }
    assert(toreturn@ =~= ks.unref());
    toreturn
}

/// Appends the squares with both coordinates in `lo..hi`, each once, in the
/// order a hash set of them gives.
fn push_block(out: &mut Vec<(i8, i8)>, lo: i8, hi: i8)
    requires
        -8 <= lo <= hi <= 16,
    ensures
        exists|b: Seq<(i8, i8)>| final(out)@ == old(out)@ + b && lists_block(b, lo as int, hi as int),
{
    let mut codes: HashSet<u16> = HashSet::new();
    let mut x: i8 = lo;
    while x < hi
        invariant
            -8 <= lo <= x <= hi <= 16,
            forall|c: u16| #[trigger] codes@.contains(c) <==> (c < 576 && lo <= square_of(c as int).0 < x && lo <= square_of(c as int).1 < hi),
        decreases hi - x,
    {
        let mut y: i8 = lo;
        while y < hi
            invariant
                -8 <= lo <= x < hi <= 16,
                lo <= y <= hi,
                forall|c: u16| #[trigger] codes@.contains(c) <==> (c < 576 && lo <= square_of(c as int).1 < hi && (lo <= square_of(c as int).0 < x || (square_of(c as int).0 == x && square_of(c as int).1 < y))),
            decreases hi - y,
        {
            proof {
                lemma_code_square(x as int, y as int);
            }
            let code: u16 = ((x + 8) as u16) * 24 + ((y + 8) as u16);
            assert(code == code_of(x as int, y as int));
            codes.insert(code);
            y = y + 1;
            proof {
                assert forall|c: u16| #[trigger] codes@.contains(c) <==> (c < 576 && lo <= square_of(c as int).1 < hi && (lo <= square_of(c as int).0 < x || (square_of(c as int).0 == x && square_of(c as int).1 < y))) by {
                    if c < 576 {
                        lemma_square_code(c as int);
                        if square_of(c as int) == (x as int, (y - 1) as int) {
                            assert(c == code);
                        }
                    }
                }
            }
        }
        x = x + 1;
    }
    let members = set_members(&codes);
    proof {
        assert forall|j: int| 0 <= j < members@.len() implies #[trigger] members@[j] < 576 by {
            assert(members@.to_set().contains(members@[j]));
        }
    }
    let ghost start = out@;
    let mut i: usize = 0;
    while i < members.len()
        invariant
            i <= members@.len(),
            out@.len() == start.len() + i,
            out@.subrange(0, start.len() as int) == start,
            forall|j: int| 0 <= j < i ==> #[trigger] out@[start.len() + j] == (square_of(members@[j] as int).0 as i8, square_of(members@[j] as int).1 as i8),
            forall|j: int| 0 <= j < members@.len() ==> #[trigger] members@[j] < 576,
        decreases members.len() - i,
    {
        let c = members[i];
        proof {
            assert(members@.to_set().contains(c));
            lemma_square_code(c as int);
        }
        let p: (i8, i8) = ((c / 24) as i8 - 8, (c % 24) as i8 - 8);
        out.push(p);
        i = i + 1;
        proof {
            assert(out@.subrange(0, start.len() as int) =~= start);
        }
    }
    let ghost b = out@.subrange(start.len() as int, out@.len() as int);
    proof {
        assert(out@ =~= start + b);
        assert forall|j: int| 0 <= j < b.len() implies #[trigger] b[j] == (square_of(members@[j] as int).0 as i8, square_of(members@[j] as int).1 as i8) by {
            assert(b[j] == out@[start.len() + j]);
        }
        assert(b.no_duplicates()) by {
            assert forall|j: int, k: int| 0 <= j < b.len() && 0 <= k < b.len() && j != k implies b[j] != b[k] by {
                lemma_square_code(members@[j] as int);
                lemma_square_code(members@[k] as int);
                assert(members@[j] != members@[k]);
            }
        }
        assert(b.to_set() =~= block_set(lo as int, hi as int)) by {
            assert forall|p: (i8, i8)| b.to_set().contains(p) implies block_set(lo as int, hi as int).contains(p) by {
                let j = choose|j: int| 0 <= j < b.len() && b[j] == p;
                let c = members@[j];
                assert(members@.to_set().contains(c));
                assert(codes@.contains(c));
                lemma_square_code(c as int);
            }
            assert forall|p: (i8, i8)| block_set(lo as int, hi as int).contains(p) implies b.to_set().contains(p) by {
                lemma_code_square(p.0 as int, p.1 as int);
                let c = code_of(p.0 as int, p.1 as int) as u16;
                assert(codes@.contains(c));
                assert(members@.to_set().contains(c));
                let j = choose|j: int| 0 <= j < members@.len() && members@[j] == c;
                assert(b[j] == p);
            }
        }
        assert(lists_block(b, lo as int, hi as int));
        assert(start == old(out)@);
    }
}

/// The squares to make for a board, in rings growing outwards: the board's
/// own 8 by 8 squares, then every square with coordinates in `-1..9`, then in
/// `-2..10`, `-4..12` and `-8..16`; each ring lists its squares once, in the
/// order a hash set gives them.
pub fn boardsquareorder() -> (r: Vec<(i8, i8)>)
    ensures
        exists|b0: Seq<(i8, i8)>, b1: Seq<(i8, i8)>, b2: Seq<(i8, i8)>, b3: Seq<(i8, i8)>, b4: Seq<(i8, i8)>|
            #![trigger lists_block(b0, 0, 8), lists_block(b1, -1, 9), lists_block(b2, -2, 10), lists_block(b3, -4, 12), lists_block(b4, -8, 16)]
            r@ == b0 + b1 + b2 + b3 + b4 && lists_block(b0, 0, 8) && lists_block(b1, -1, 9) && lists_block(b2, -2, 10)
                && lists_block(b3, -4, 12) && lists_block(b4, -8, 16),
{
    let mut x: Vec<(i8, i8)> = Vec::new();
    push_block(&mut x, 0, 8);
    let ghost s0 = x@;
    push_block(&mut x, -1, 9);
    let ghost s1 = x@;
    push_block(&mut x, -2, 10);
    let ghost s2 = x@;
    push_block(&mut x, -4, 12);
    let ghost s3 = x@;
    push_block(&mut x, -8, 16);
    proof {
        let b0 = choose|b: Seq<(i8, i8)>| s0 == Seq::<(i8, i8)>::empty() + b && lists_block(b, 0, 8);
        let b1 = choose|b: Seq<(i8, i8)>| s1 == s0 + b && lists_block(b, -1, 9);
        let b2 = choose|b: Seq<(i8, i8)>| s2 == s1 + b && lists_block(b, -2, 10);
        let b3 = choose|b: Seq<(i8, i8)>| s3 == s2 + b && lists_block(b, -4, 12);
        let b4 = choose|b: Seq<(i8, i8)>| x@ == s3 + b && lists_block(b, -8, 16);
        assert(s0 =~= b0);
        assert(x@ =~= b0 + b1 + b2 + b3 + b4);
    }
    x
}

} // verus!
