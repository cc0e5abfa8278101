use vstd::prelude::*;
use std::collections::HashSet;

verus! {

broadcast use {vstd::string::group_string_axioms, vstd::std_specs::hash::group_hash_axioms};

/// The kinds of piece that can stand on the board.
#[derive(Clone, Copy, Debug, PartialEq, Eq, Hash, Structural)]
pub enum PieceType {
    Nothing,
    Pawn,
    Knight,
    Bishop,
    Rook,
    Queen,
    King,
    Checker,
}

/// The point value of each kind of piece.
pub open spec fn piece_value(t: PieceType) -> u8 {
    match t {
        PieceType::Nothing => 0,
        PieceType::Pawn => 1,
        PieceType::Knight => 2,
        PieceType::Bishop => 3,
        PieceType::Rook => 4,
        PieceType::Queen => 5,
        PieceType::King => 12,
        PieceType::Checker => 2,
    }
}

/// The image file that shows each kind of piece.
pub open spec fn piece_image_file(t: PieceType) -> Seq<char> {
    match t {
        PieceType::Nothing => "none.png"@,
        PieceType::Pawn => "pawn.png"@,
        PieceType::Knight => "knight.png"@,
        PieceType::Bishop => "bishop.png"@,
        PieceType::Rook => "rook.png"@,
        PieceType::Queen => "queen.png"@,
        PieceType::King => "king.png"@,
        PieceType::Checker => "checker.png"@,
    }
}

impl PieceType {
    pub fn value(&self) -> (v: u8)
        ensures
            v == piece_value(*self),
    {
        match self {
            PieceType::Nothing => 0,
            PieceType::Pawn => 1,
            PieceType::Knight => 2,
            PieceType::Bishop => 3,
            PieceType::Rook => 4,
            PieceType::Queen => 5,
            PieceType::King => 12,
            PieceType::Checker => 2,
        }
    }

    pub fn image_file(&self) -> (s: String)
        ensures
            s@ == piece_image_file(*self),
    {
        match self {
            PieceType::Nothing => "none.png".to_string(),
            PieceType::Pawn => "pawn.png".to_string(),
            PieceType::Knight => "knight.png".to_string(),
            PieceType::Bishop => "bishop.png".to_string(),
            PieceType::Rook => "rook.png".to_string(),
            PieceType::Queen => "queen.png".to_string(),
            PieceType::King => "king.png".to_string(),
            PieceType::Checker => "checker.png".to_string(),
        }
    }
}


/// The kinds that a random piece can be: every kind but none and the king.
pub open spec fn random_kinds() -> Set<PieceType> {
    set![PieceType::Bishop, PieceType::Checker, PieceType::Queen, PieceType::Knight, PieceType::Pawn, PieceType::Rook]
}

/// The kind with this code: its position in the declaration of `PieceType`.
pub open spec fn kind_of_code(c: u8) -> PieceType {
    if c == 0 { PieceType::Nothing }
    else if c == 1 { PieceType::Pawn }
    else if c == 2 { PieceType::Knight }
    else if c == 3 { PieceType::Bishop }
    else if c == 4 { PieceType::Rook }
    else if c == 5 { PieceType::Queen }
    else if c == 6 { PieceType::King }
    else { PieceType::Checker }
}

/// The kind with this code (see `kind_of_code`).
fn kind_from_code(c: u8) -> (t: PieceType)
    ensures
        t == kind_of_code(c),
{
    if c == 0 { PieceType::Nothing }
    else if c == 1 { PieceType::Pawn }
    else if c == 2 { PieceType::Knight }
    else if c == 3 { PieceType::Bishop }
    else if c == 4 { PieceType::Rook }
    else if c == 5 { PieceType::Queen }
    else if c == 6 { PieceType::King }
    else { PieceType::Checker }
}

/// The members of a set in the order the set gives them, each once.
pub(crate) fn set_members(s: &HashSet<u8>) -> (keys: Vec<u8>)
    ensures
        keys@.to_set() == s@,
        keys@.no_duplicates(),
{
    let mut toreturn: Vec<u8> = Vec::new();
    let ghost ks = vstd::std_specs::iter::IteratorSpec::remaining(&vstd::std_specs::hash::spec_hash_keys_iter(s));
    for k in it: s.iter()
        invariant
            it.seq() == ks,
            toreturn@ == ks.take(it.index()).map_values(|x: &u8| *x),
    {
        toreturn.push(*k);
    }
    assert(toreturn@ =~= ks.unref());
    toreturn
}

impl PieceType {
    /// One of the six kinds of piece other than none and the king: the first
    /// that a hash set of them gives, so which one is left to the set's order.
    pub fn get_random() -> (t: PieceType)
        ensures
            random_kinds().contains(t),
    {
        let mut piecetypes: HashSet<u8> = HashSet::new();
        piecetypes.insert(3);
        piecetypes.insert(7);
        piecetypes.insert(5);
        piecetypes.insert(2);
        piecetypes.insert(1);
        piecetypes.insert(4);
        let codes = set_members(&piecetypes);
        proof {
            assert(piecetypes@ =~= set![3u8, 7u8, 5u8, 2u8, 1u8, 4u8]);
            assert(piecetypes@.contains(3u8));
            assert(codes@.to_set().contains(3u8));
            assert(codes@.len() > 0);
            assert(codes@.to_set().contains(codes@[0]));
        }
        kind_from_code(codes[0])
    }
}

} // verus!
