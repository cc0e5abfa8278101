use vstd::prelude::*;
use vstd::string::StringExecFns;
use crate::rng::{is_alphanumeric, random_alphanumeric};
use crate::text::push_char;

verus! {

broadcast use vstd::string::group_string_axioms;

/// How a client asks the matchmaker for a game.
#[allow(non_camel_case_types)]
#[derive(Debug)]
pub enum GameToConnectTo {
    joinpublicgame,
    /// Join the private game with this password.
    joinprivategame(String),
    createprivategame,
}

/// A match that waits for a second player: the public one, or a private one
/// under its password.
#[derive(Debug)]
pub enum MatchPassword {
    Private(String),
    Public,
}

/// A match's key as plain values: `None` for the public match, the password
/// of a private one.
pub open spec fn key_of(m: MatchPassword) -> Option<Seq<char>> {
    match m {
        MatchPassword::Private(p) => Some(p@),
        MatchPassword::Public => None,
    }
}

/// What the server must do for a request.
#[allow(non_camel_case_types)]
#[derive(Debug)]
pub enum MatchAction {
    /// Tell the client to join the game on this port with this password.
    connect(u16, String),
    /// Start a game with this password for this match, then report its port
    /// with `game_created`.
    creategame(MatchPassword, String),
    /// Nothing: the request names no open match.
    nothing,
}

/// The open matches as plain values, and the password of public games.
pub struct MatchmakerView {
    pub openmatches: Seq<(Option<Seq<char>>, u16)>,
    pub publicpassword: Seq<char>,
}

/// Whether an open match has this key.
pub open spec fn has_key(matches: Seq<(Option<Seq<char>>, u16)>, key: Option<Seq<char>>) -> bool {
    exists|i: int| 0 <= i < matches.len() && (#[trigger] matches[i]).0 == key
}

/// Whether no two open matches have the same key.
pub open spec fn unique_keys(matches: Seq<(Option<Seq<char>>, u16)>) -> bool {
    forall|i: int, j: int|
        0 <= i < matches.len() && 0 <= j < matches.len() && i != j ==> (#[trigger] matches[i]).0 != (#[trigger] matches[j]).0
}

/// Once a client is sent to an open match, which leaves the list, no open
/// match has its key any more, so no other client can join it; the other
/// matches stay open.
pub proof fn lemma_joined_match_closes(matches: Seq<(Option<Seq<char>>, u16)>, i: int)
    requires
        unique_keys(matches),
        0 <= i < matches.len(),
    ensures
        !has_key(matches.remove(i), matches[i].0),
        unique_keys(matches.remove(i)),
        forall|j: int| 0 <= j < matches.len() && j != i ==> #[trigger] matches.remove(i).contains(matches[j]),
{
    let rest = matches.remove(i);
    if has_key(rest, matches[i].0) {
        let j = choose|j: int| 0 <= j < rest.len() && (#[trigger] rest[j]).0 == matches[i].0;
        if j < i {
            assert(rest[j] == matches[j]);
        } else {
            assert(rest[j] == matches[j + 1]);
        }
    }
    assert forall|a: int, b: int| 0 <= a < rest.len() && 0 <= b < rest.len() && a != b implies (#[trigger] rest[a]).0
        != (#[trigger] rest[b]).0 by {
        let a2 = if a < i { a } else { a + 1 };
        let b2 = if b < i { b } else { b + 1 };
        assert(rest[a] == matches[a2] && rest[b] == matches[b2]);
    }
    assert forall|j: int| 0 <= j < matches.len() && j != i implies #[trigger] rest.contains(matches[j]) by {
        if j < i {
            assert(rest[j] == matches[j]);
        } else {
            assert(rest[j - 1] == matches[j]);
        }
    }
}

/// Hands out games to clients: joins them to an open match, or has the
/// server start one.
pub struct Main {
    /// The matches waiting for a second player, each under its own key: a
    /// map from key to game held as a list of pairs with no key twice, since
    /// a key holds a `String`, whose hash Verus does not model.
    openmatches: Vec<(MatchPassword, u16)>,
    /// The password of every public game.
    publicpassword: String,
}

impl View for Main {
    type V = MatchmakerView;

    closed spec fn view(&self) -> MatchmakerView {
        MatchmakerView {
            openmatches: self.openmatches@.map_values(|e: (MatchPassword, u16)| (key_of(e.0), e.1)),
            publicpassword: self.publicpassword@,
        }
    }
}

/// Whether two keys name the same match.
fn same_match(a: &MatchPassword, b: &MatchPassword) -> (r: bool)
    ensures
        r == (key_of(*a) == key_of(*b)),
{
    match (a, b) {
        (MatchPassword::Public, MatchPassword::Public) => true,
        (MatchPassword::Private(p), MatchPassword::Private(q)) => *p == *q,
        _ => false,
    }
}

/// A password of four random ASCII letters and digits.
pub fn new_game_password() -> (p: String)
    ensures
        p@.len() == 4,
        forall|i: int| 0 <= i < 4 ==> is_alphanumeric(#[trigger] p@[i]),
{
    let mut gamepassword = String::new();
    let mut i: usize = 0;
    while i < 4
        invariant
            i <= 4,
            gamepassword@.len() == i,
            forall|j: int| 0 <= j < i ==> is_alphanumeric(#[trigger] gamepassword@[j]),
        decreases 4 - i,
    {
        push_char(&mut gamepassword, random_alphanumeric());
        i = i + 1;
    }
    gamepassword
}

impl Main {
    /// No two open matches have the same key.
    pub closed spec fn wf(&self) -> bool {
        unique_keys(self@.openmatches)
    }

    /// No open match, and public games under the password `password`.
    pub fn new() -> (m: Main)
        ensures
            m.wf(),
            m@.openmatches.len() == 0,
            m@.publicpassword == "password"@,
    {
        Main { openmatches: Vec::new(), publicpassword: String::from_str("password") }
    }

    /// The place of the open match with this key, if any.
    fn find_match(&self, key: &MatchPassword) -> (r: Option<usize>)
        ensures
            match r {
                Some(i) => i < self@.openmatches.len() && self@.openmatches[i as int].0 == key_of(*key),
                None => !has_key(self@.openmatches, key_of(*key)),
            },
    {
        let mut i: usize = 0;
        while i < self.openmatches.len()
            invariant
                i <= self.openmatches@.len(),
                forall|j: int| 0 <= j < i ==> (#[trigger] self@.openmatches[j]).0 != key_of(*key),
            decreases self.openmatches.len() - i,
        {
            if same_match(&self.openmatches[i].0, key) {
                return Some(i);
            }
            i = i + 1;
        }
        None
    }

    /// What to do for a client's request: join the open public match, or
    /// have a public game started if there is none; have a private game
    /// started under a new random password; join the open private match with
    /// the password asked for, if there is one. A match that a client is sent
    /// to is open no more.
    pub fn handle_request(&mut self, request: GameToConnectTo) -> (action: MatchAction)
        requires
            old(self).wf(),
        ensures
            final(self).wf(),
            final(self)@.publicpassword == old(self)@.publicpassword,
            match request {
                GameToConnectTo::joinpublicgame => if has_key(old(self)@.openmatches, None) {
                    action matches MatchAction::connect(port, password) && password@ == old(self)@.publicpassword
                        && exists|i: int| 0 <= i < old(self)@.openmatches.len() && old(self)@.openmatches[i] == (
                            None::<Seq<char>>,
                            port,
                        ) && final(self)@.openmatches == old(self)@.openmatches.remove(i)
                } else {
                    action matches MatchAction::creategame(m, password) && m is Public && password@
                        == old(self)@.publicpassword && final(self)@ == old(self)@
                },
                GameToConnectTo::createprivategame => {
                    &&& action matches MatchAction::creategame(m, password) && m matches MatchPassword::Private(p)
                        && p@ == password@ && p@.len() == 4 && forall|i: int| 0 <= i < 4 ==> is_alphanumeric(#[trigger] p@[i])
                    &&& final(self)@ == old(self)@
                },
                GameToConnectTo::joinprivategame(p) => if has_key(old(self)@.openmatches, Some(p@)) {
                    action matches MatchAction::connect(port, password) && password@ == p@ && exists|i: int|
                        0 <= i < old(self)@.openmatches.len() && old(self)@.openmatches[i] == (Some(p@), port)
                            && final(self)@.openmatches == old(self)@.openmatches.remove(i)
                } else {
                    action is nothing && final(self)@ == old(self)@
                },
            },
    {
        match request {
            GameToConnectTo::joinpublicgame => {
                let matchpassword = MatchPassword::Public;
                match self.find_match(&matchpassword) {
                    Some(i) => {
                        let (_, port) = self.openmatches.remove(i);
                        proof {
                            assert(old(self)@.openmatches[i as int] == (None::<Seq<char>>, port));
                            assert(self@.openmatches =~= old(self)@.openmatches.remove(i as int));
                        }
                        MatchAction::connect(port, self.publicpassword.clone())
                    },
                    None => MatchAction::creategame(matchpassword, self.publicpassword.clone()),
                }
            },
            GameToConnectTo::createprivategame => {
                let gamepassword = new_game_password();
                MatchAction::creategame(MatchPassword::Private(gamepassword.clone()), gamepassword)
            },
            GameToConnectTo::joinprivategame(privategamepassword) => {
                let matchpassword = MatchPassword::Private(privategamepassword);
                match self.find_match(&matchpassword) {
                    Some(i) => {
                        let (_, port) = self.openmatches.remove(i);
                        proof {
                            assert(self@.openmatches =~= old(self)@.openmatches.remove(i as int));
                        }
                        match matchpassword {
                            MatchPassword::Private(password) => MatchAction::connect(port, password),
                            MatchPassword::Public => MatchAction::nothing,
                        }
                    },
                    None => MatchAction::nothing,
                }
            },
        }
    }

    /// Records that a game was started for a match on this port, so that the
    /// match is open (under its key, in place of any match with that key),
    /// and says to send the client there with the match's password.
    pub fn game_created(&mut self, matchpassword: MatchPassword, port: u16) -> (action: MatchAction)
        requires
            old(self).wf(),
        ensures
            final(self).wf(),
            final(self)@.publicpassword == old(self)@.publicpassword,
            final(self)@.openmatches == if has_key(old(self)@.openmatches, key_of(matchpassword)) {
                old(self)@.openmatches.update(
                    choose|i: int| 0 <= i < old(self)@.openmatches.len() && (#[trigger] old(self)@.openmatches[i]).0 == key_of(matchpassword),
                    (key_of(matchpassword), port),
                )
            } else {
                old(self)@.openmatches.push((key_of(matchpassword), port))
            },
            action matches MatchAction::connect(p, password) && p == port && password@ == match matchpassword {
                MatchPassword::Private(pw) => pw@,
                MatchPassword::Public => old(self)@.publicpassword,
            },
    {
        let password = match &matchpassword {
            MatchPassword::Private(pw) => pw.clone(),
            MatchPassword::Public => self.publicpassword.clone(),
        };
        let ghost key = key_of(matchpassword);
        match self.find_match(&matchpassword) {
            Some(i) => {
                proof {
                    let j = choose|j: int| 0 <= j < old(self)@.openmatches.len() && (#[trigger] old(self)@.openmatches[j]).0 == key;
                    assert(j == i as int);
                }
                self.openmatches.set(i, (matchpassword, port));
                proof {
                    assert(self@.openmatches =~= old(self)@.openmatches.update(i as int, (key, port)));
                }
            },
            None => {
                self.openmatches.push((matchpassword, port));
                proof {
                    assert(self@.openmatches =~= old(self)@.openmatches.push((key, port)));
                }
            },
        }
        MatchAction::connect(port, password)
    }
}

} // verus!
