use vstd::prelude::*;
use std::collections::HashMap;
use std::collections::HashSet;
use vstd::string::StringExecFns;
use crate::board::piecetype::{piece_image_file, piece_value, PieceType};
use crate::boardobject::piece::Piece;

verus! {

broadcast use {vstd::string::group_string_axioms, vstd::std_specs::hash::group_hash_axioms};

/// What the rules know of a piece, as plain values.
pub struct PieceDataView {
    pub owner: u8,
    pub piecetype: PieceType,
    /// The kinds whose moves the piece has besides its own.
    pub augmented: Set<PieceType>,
    pub hasmoved: bool,
}

/// What the rules know of a piece: its owner, its kind, the kinds whose moves
/// it has besides, and whether it has moved. (The direction it faces, a
/// fraction of a turn, stays with the code that turns moves into actions.)
#[derive(Clone, Debug)]
pub struct PieceData {
    owner: u8,
    piecetype: PieceType,
    /// The added kinds, each once.
    augmented: Vec<PieceType>,
    hasmoved: bool,
}

impl View for PieceData {
    type V = PieceDataView;

    closed spec fn view(&self) -> PieceDataView {
        PieceDataView {
            owner: self.owner,
            piecetype: self.piecetype,
            augmented: self.augmented@.to_set(),
            hasmoved: self.hasmoved,
        }
    }
}

/// The image file that shows a piece: player 1's pieces as their kind's
/// file, the others' with `b_` in front.
pub open spec fn piece_image(owner: u8, t: PieceType) -> Seq<char> {
    if owner == 1 {
        piece_image_file(t)
    } else {
        "b_"@ + piece_image_file(t)
    }
}

impl PieceData {
    /// Each added kind is listed once.
    pub closed spec fn wf(&self) -> bool {
        self.augmented@.no_duplicates()
    }

    /// A piece of this owner with no kind, nothing added, not moved.
    pub fn new(owner: &u8) -> (d: PieceData)
        ensures
            d.wf(),
            d@ == (PieceDataView {
                owner: *owner,
                piecetype: PieceType::Nothing,
                augmented: Set::empty(),
                hasmoved: false,
            }),
    {
        let d = PieceData { owner: *owner, piecetype: PieceType::Nothing, augmented: Vec::new(), hasmoved: false };
        assert(d.augmented@.to_set() =~= Set::<PieceType>::empty());
        d
    }

    pub fn get_owner(&self) -> (o: u8)
        ensures
            o == self@.owner,
    {
        self.owner
    }

    /// Whether the piece is of this kind.
    pub fn is_this_piecetype(&self, piecetype: &PieceType) -> (b: bool)
        ensures
            b == (self@.piecetype == *piecetype),
    {
        self.piecetype == *piecetype
    }

    /// Gives the piece the moves of this kind too.
    pub fn augment(&mut self, piecetype: &PieceType)
        requires
            old(self).wf(),
        ensures
            final(self).wf(),
            final(self)@ == (PieceDataView { augmented: old(self)@.augmented.insert(*piecetype), ..old(self)@ }),
    {
        let mut found = false;
        let mut i: usize = 0;
        while i < self.augmented.len()
            invariant
                i <= self.augmented@.len(),
                found <==> exists|j: int| 0 <= j < i && self.augmented@[j] == *piecetype,
            decreases self.augmented.len() - i,
        {
            if self.augmented[i] == *piecetype {
                found = true;
            }
            i = i + 1;
        }
        if found {
            proof {
                assert(self.augmented@.to_set().contains(*piecetype));
                assert(self.augmented@.to_set() =~= self.augmented@.to_set().insert(*piecetype));
            }
        } else {
            self.augmented.push(*piecetype);
            proof {
                old(self).augmented@.lemma_push_to_set_commute(*piecetype);
                assert(!old(self).augmented@.contains(*piecetype));
            }
        }
    }

    /// Takes away the added kinds, so the piece moves as its kind again.
    pub fn remove_augmentations(&mut self)
        ensures
            final(self).wf(),
            final(self)@ == (PieceDataView { augmented: Set::empty(), ..old(self)@ }),
    {
        self.augmented = Vec::new();
        assert(self.augmented@.to_set() =~= Set::<PieceType>::empty());
    }

    /// The value of the piece's kind.
    pub fn get_value(&self) -> (v: u8)
        ensures
            v == piece_value(self@.piecetype),
    {
        self.piecetype.value()
    }

    pub fn set_piecetype(&mut self, piecetype: &PieceType)
        ensures
            final(self).wf() == old(self).wf(),
            final(self)@ == (PieceDataView { piecetype: *piecetype, ..old(self)@ }),
    {
        self.piecetype = *piecetype;
    }

    pub fn set_moved(&mut self)
        ensures
            final(self).wf() == old(self).wf(),
            final(self)@ == (PieceDataView { hasmoved: true, ..old(self)@ }),
    {
        self.hasmoved = true;
    }

    /// The image file that shows the piece (see `piece_image`).
    pub fn get_image_location(&self) -> (s: String)
        ensures
            s@ == piece_image(self@.owner, self@.piecetype),
    {
        if self.owner == 1 {
            self.piecetype.image_file()
        } else {
            let mut s = String::from_str("b_");
            let file = self.piecetype.image_file();
            s.append(file.as_str());
            s
        }
    }

    /// The other player of a two-player game.
    pub fn opponent(&self) -> (p: u8)
        requires
            self@.owner == 1 || self@.owner == 2,
        ensures
            p == 3 - self@.owner,
    {
        if self.owner == 1 {
            2
        } else {
            1
        }
    }
}

/// The pieces' data by piece id, as plain values.
pub struct PieceDatasView {
    pub totalpieces: u16,
    pub data: Map<u16, PieceDataView>,
}

/// The data of every piece by its id; ids count up from 0.
pub struct PieceDatas {
    totalpieces: u16,
    data: HashMap<u16, PieceData>,
}

impl View for PieceDatas {
    type V = PieceDatasView;

    closed spec fn view(&self) -> PieceDatasView {
        PieceDatasView { totalpieces: self.totalpieces, data: self.data@.map_values(|d: PieceData| d@) }
    }
}

impl PieceDatas {
    /// Each piece's data lists its added kinds once.
    pub closed spec fn wf(&self) -> bool {
        forall|k: u16| #[trigger] self.data@.contains_key(k) ==> self.data@[k].wf()
    }

    /// No pieces.
    pub fn new() -> (p: PieceDatas)
        ensures
            p.wf(),
            p@.totalpieces == 0,
            p@.data == Map::<u16, PieceDataView>::empty(),
    {
        let p = PieceDatas { totalpieces: 0, data: HashMap::new() };
        assert(p@.data =~= Map::<u16, PieceDataView>::empty());
        p
    }

    /// The ids of the player's pieces.
    pub fn get_players_pieces(&self, playerid: u8) -> (r: HashSet<u16>)
        ensures
            forall|k: u16| #[trigger] r@.contains(k) <==> self@.data.contains_key(k) && self@.data[k].owner == playerid,
    {
        let mut toreturn: HashSet<u16> = HashSet::new();
        let ghost entries = vstd::std_specs::iter::IteratorSpec::remaining(
            &vstd::std_specs::hash::spec_hash_map_iter(&self.data),
        );
        for (id, data) in it: self.data.iter()
            invariant
                it.seq() == entries,
                forall|k: u16| #[trigger] toreturn@.contains(k) <==> exists|j: int|
                    0 <= j < it.index() && *(#[trigger] entries[j]).0 == k && entries[j].1@.owner == playerid,
        {
            let ghost n = it.index() as int;
            proof {
                assert(entries[n] == (id, data));
            }
            if data.get_owner() == playerid {
                toreturn.insert(*id);
            }
            proof {
                assert forall|k: u16| #[trigger] toreturn@.contains(k) <==> exists|j: int|
                    0 <= j < n + 1 && *(#[trigger] entries[j]).0 == k && entries[j].1@.owner == playerid by {
                    if exists|j: int| 0 <= j < n + 1 && *(#[trigger] entries[j]).0 == k && entries[j].1@.owner == playerid {
                        let j = choose|j: int| 0 <= j < n + 1 && *(#[trigger] entries[j]).0 == k && entries[j].1@.owner == playerid;
                        if j < n {
                            assert(exists|l: int| 0 <= l < n && *(#[trigger] entries[l]).0 == k && entries[l].1@.owner == playerid);
                        }
                    }
                }
            }
        }
        proof {
            assert forall|k: u16| #[trigger] toreturn@.contains(k) <==> self@.data.contains_key(k) && self@.data[k].owner == playerid by {
                if toreturn@.contains(k) {
                    let j = choose|j: int| 0 <= j < entries.len() && *(#[trigger] entries[j]).0 == k && entries[j].1@.owner == playerid;
                    assert(self.data@.contains_key(*entries[j].0) && self.data@[*entries[j].0] == *entries[j].1);
                }
                if self@.data.contains_key(k) && self@.data[k].owner == playerid {
                    assert(entries.contains((&k, &self.data@[k])));
                    let j = choose|j: int| 0 <= j < entries.len() && entries[j] == (&k, &self.data@[k]);
                    assert(*entries[j].0 == k && entries[j].1@.owner == playerid);
                }
            }
        }
        toreturn
    }

    /// Gives every piece the moves of a knight too.
    pub fn augment_knight(&mut self)
        requires
            old(self).wf(),
        ensures
            final(self).wf(),
            final(self)@.totalpieces == old(self)@.totalpieces,
            final(self)@.data.dom() == old(self)@.data.dom(),
            forall|k: u16| #[trigger] final(self)@.data.contains_key(k) ==> final(self)@.data[k] == (PieceDataView {
                augmented: old(self)@.data[k].augmented.insert(PieceType::Knight),
                ..old(self)@.data[k]
            }),
    {
        let mut ids: Vec<u16> = Vec::new();
        let ghost ks = vstd::std_specs::iter::IteratorSpec::remaining(&vstd::std_specs::hash::spec_hash_map_iter(&self.data));
        for (id, _data) in it: self.data.iter()
            invariant
                it.seq() == ks,
                ids@ == ks.take(it.index()).map_values(|e: (&u16, &PieceData)| *e.0),
        {
            ids.push(*id);
        }
        proof {
            assert(ids@ =~= ks.map_values(|e: (&u16, &PieceData)| *e.0));
            crate::mapfacts::lemma_entries_distinct(&self.data);
            assert(self@.data.dom() =~= self.data@.dom());
            assert forall|k: u16| #[trigger] self@.data.contains_key(k) implies ids@.contains(k) by {
                assert(ks.contains((&k, &self.data@[k])));
                let j = choose|j: int| 0 <= j < ks.len() && ks[j] == (&k, &self.data@[k]);
                assert(ids@[j] == k);
            }
            assert forall|j: int| 0 <= j < ids@.len() implies self@.data.contains_key(#[trigger] ids@[j]) by {
                assert(self.data@.contains_key(*ks[j].0));
            }
            assert forall|a: int, b: int| 0 <= a < ids@.len() && 0 <= b < ids@.len() && a != b implies ids@[a] != ids@[b] by {
                assert(ks[a].0 != ks[b].0);
            }
        }
        let ghost start = self@;
        let mut i: usize = 0;
        while i < ids.len()
            invariant
                i <= ids@.len(),
                ids@ == ks.map_values(|e: (&u16, &PieceData)| *e.0),
                ids@.len() == start.data.dom().len(),
                ids@.no_duplicates(),
                forall|k: u16| #[trigger] start.data.contains_key(k) ==> ids@.contains(k),
                forall|j: int| 0 <= j < ids@.len() ==> start.data.contains_key(#[trigger] ids@[j]),
                self.wf(),
                self@.totalpieces == start.totalpieces,
                self@.data.dom() == start.data.dom(),
                forall|k: u16| #[trigger] self@.data.contains_key(k) ==> self@.data[k] == if ids@.take(i as int).contains(k) {
                    PieceDataView { augmented: start.data[k].augmented.insert(PieceType::Knight), ..start.data[k] }
                } else {
                    start.data[k]
                },
            decreases ids.len() - i,
        {
            let id = ids[i];
            let mut data = self.data.remove(&id).unwrap();
            data.augment(&PieceType::Knight);
            self.data.insert(id, data);
            i = i + 1;
            proof {
                assert(self@.data.dom() =~= start.data.dom());
                assert forall|k: u16| #[trigger] self@.data.contains_key(k) implies self@.data[k] == if ids@.take(i as int).contains(k) {
                    PieceDataView { augmented: start.data[k].augmented.insert(PieceType::Knight), ..start.data[k] }
                } else {
                    start.data[k]
                } by {
                    if k == id {
                        assert(ids@.take(i as int)[i - 1] == k);
                        let prev = ids@.take(i - 1);
                        if prev.contains(k) {
                            let j = choose|j: int| 0 <= j < prev.len() && #[trigger] prev[j] == k;
                            assert(ids@[j] == ids@[i - 1]);
                        }
                    } else {
                        let now = ids@.take(i as int);
                        let prev = ids@.take(i - 1);
                        if now.contains(k) {
                            let j = choose|j: int| 0 <= j < now.len() && #[trigger] now[j] == k;
                            assert(prev[j] == k);
                        }
                        if prev.contains(k) {
                            let j = choose|j: int| 0 <= j < prev.len() && #[trigger] prev[j] == k;
                            assert(now[j] == k);
                        }
                    }
                }
            }
        }
        proof {
            assert(ids@.take(i as int) =~= ids@);
        }
    }

    /// The data of every piece, in the order the map gives them.
    pub fn get_all(&self) -> (r: Vec<&PieceData>)
        ensures
            r@.len() == self@.data.dom().len(),
            forall|j: int| 0 <= j < r@.len() ==> self@.data.contains_value((#[trigger] r@[j])@),
            forall|k: u16| #[trigger] self@.data.contains_key(k) ==> exists|j: int| 0 <= j < r@.len() && self@.data[k] == (#[trigger] r@[j])@,
    {
        let mut toreturn: Vec<&PieceData> = Vec::new();
        let ghost entries = vstd::std_specs::iter::IteratorSpec::remaining(
            &vstd::std_specs::hash::spec_hash_map_iter(&self.data),
        );
        for (_id, data) in it: self.data.iter()
            invariant
                it.seq() == entries,
                toreturn@ == entries.take(it.index()).map_values(|e: (&u16, &PieceData)| e.1),
        {
            toreturn.push(data);
        }
        proof {
            assert(toreturn@ =~= entries.map_values(|e: (&u16, &PieceData)| e.1));
            assert(self@.data.dom() =~= self.data@.dom());
            assert forall|j: int| 0 <= j < toreturn@.len() implies self@.data.contains_value((#[trigger] toreturn@[j])@) by {
                assert(self.data@.contains_key(*entries[j].0) && self.data@[*entries[j].0] == *entries[j].1);
                assert(self@.data.contains_key(*entries[j].0));
            }
            assert forall|k: u16| #[trigger] self@.data.contains_key(k) implies exists|j: int| 0 <= j < toreturn@.len() && self@.data[k] == (#[trigger] toreturn@[j])@ by {
                assert(entries.contains((&k, &self.data@[k])));
                let j = choose|j: int| 0 <= j < entries.len() && entries[j] == (&k, &self.data@[k]);
                assert(toreturn@[j] == entries[j].1);
            }
        }
        toreturn
    }

    /// The data of the piece with this id, if any.
    pub fn get(&self, id: &u16) -> (r: Option<&PieceData>)
        ensures
            match r {
                Some(d) => self@.data.contains_key(*id) && self@.data[*id] == d@,
                None => !self@.data.contains_key(*id),
            },
    {
        self.data.get(id)
    }

    /// Forgets the piece with this id.
    pub fn remove(&mut self, id: &u16)
        requires
            old(self).wf(),
        ensures
            final(self).wf(),
            final(self)@ == (PieceDatasView { data: old(self)@.data.remove(*id), ..old(self)@ }),
    {
        self.data.remove(id);
        assert(self@.data =~= old(self)@.data.remove(*id));
    }

    /// Adds a piece under the next id and gives the id.
    pub fn add_piece(&mut self, piecedata: PieceData) -> (id: u16)
        requires
            old(self).wf(),
            piecedata.wf(),
            old(self)@.totalpieces < u16::MAX,
        ensures
            final(self).wf(),
            id == old(self)@.totalpieces,
            final(self)@ == (PieceDatasView {
                totalpieces: (old(self)@.totalpieces + 1) as u16,
                data: old(self)@.data.insert(id, piecedata@),
            }),
    {
        let id = self.totalpieces;
        self.data.insert(id, piecedata);
        self.totalpieces = self.totalpieces + 1;
        assert(self@.data =~= old(self)@.data.insert(id, piecedata@));
        id
    }

    /// Marks the piece with this id, if any, as moved.
    pub fn set_moved(&mut self, id: &u16)
        requires
            old(self).wf(),
        ensures
            final(self).wf(),
            final(self)@.totalpieces == old(self)@.totalpieces,
            final(self)@.data == if old(self)@.data.contains_key(*id) {
                old(self)@.data.insert(*id, PieceDataView { hasmoved: true, ..old(self)@.data[*id] })
            } else {
                old(self)@.data
            },
    {
        if let Some(mut data) = self.data.remove(id) {
            data.set_moved();
            self.data.insert(*id, data);
            assert(self@.data =~= old(self)@.data.insert(*id, PieceDataView { hasmoved: true, ..old(self)@.data[*id] }));
        }
    }
}

/// Whether the player owns the piece.
pub fn does_player_own_piece(piecedatas: &PieceDatas, player: &u8, piece: &Piece) -> (b: bool)
    ensures
        b == (piecedatas@.data.contains_key(piece.id) && piecedatas@.data[piece.id].owner == *player),
{
    if let Some(data) = piecedatas.get(&piece.id) {
        return data.get_owner() == *player;
    }
    false
}

/// Whether the player still has a king.
pub fn does_king_exist(piecedatas: &PieceDatas, playerid: &u8) -> (b: bool)
    ensures
        b == exists|k: u16| #[trigger] piecedatas@.data.contains_key(k) && piecedatas@.data[k].owner == *playerid
            && piecedatas@.data[k].piecetype == PieceType::King,
{
    let all = piecedatas.get_all();
    let mut i: usize = 0;
    while i < all.len()
        invariant
            i <= all@.len(),
            forall|j: int| 0 <= j < all@.len() ==> piecedatas@.data.contains_value((#[trigger] all@[j])@),
            forall|k: u16| #[trigger] piecedatas@.data.contains_key(k) ==> exists|j: int| 0 <= j < all@.len() && piecedatas@.data[k] == (#[trigger] all@[j])@,
            forall|j: int| 0 <= j < i ==> !((#[trigger] all@[j])@.owner == *playerid && all@[j]@.piecetype == PieceType::King),
        decreases all.len() - i,
    {
        let data = all[i];
        if *playerid == data.get_owner() {
            if data.is_this_piecetype(&PieceType::King) {
                proof {
                    assert(piecedatas@.data.contains_value(all@[i as int]@));
                    let k = choose|k: u16| piecedatas@.data.contains_key(k) && piecedatas@.data[k] == all@[i as int]@;
                    assert(piecedatas@.data.contains_key(k));
                }
                return true;
            }
        }
        i = i + 1;
    }
    proof {
        if exists|k: u16| #[trigger] piecedatas@.data.contains_key(k) && piecedatas@.data[k].owner == *playerid
            && piecedatas@.data[k].piecetype == PieceType::King {
            let k = choose|k: u16| #[trigger] piecedatas@.data.contains_key(k) && piecedatas@.data[k].owner == *playerid
                && piecedatas@.data[k].piecetype == PieceType::King;
            let j = choose|j: int| 0 <= j < all@.len() && piecedatas@.data[k] == (#[trigger] all@[j])@;
            assert(!((all@[j])@.owner == *playerid && all@[j]@.piecetype == PieceType::King));
        }
    }
    false
}

} // verus!
