use vstd::prelude::*;

verus! {

/// The four castling moves a game can still allow.
#[derive(Clone, Copy, Debug, PartialEq, Eq, Hash, Structural)]
pub enum Castling {
    WhiteShort,
    WhiteLong,
    BlackShort,
    BlackLong,
}

/// The set of castling moves that a position still allows, one flag for
/// each. Its view is the set itself.
#[derive(Clone, Copy, Debug, PartialEq, Eq, Hash, Structural)]
pub struct CastlingRights {
    pub white_short: bool,
    pub white_long: bool,
    pub black_short: bool,
    pub black_long: bool,
}

impl View for CastlingRights {
    type V = Set<Castling>;

    open spec fn view(&self) -> Set<Castling> {
        Set::new(|c: Castling| self.holds(c))
    }
}

impl CastlingRights {
    /// Whether the right to the given castling move is held.
    pub open spec fn holds(self, castling: Castling) -> bool {
        match castling {
            Castling::WhiteShort => self.white_short,
            Castling::WhiteLong => self.white_long,
            Castling::BlackShort => self.black_short,
            Castling::BlackLong => self.black_long,
        }
    }

    /// The rights with one more held.
    pub open spec fn with(self, castling: Castling) -> CastlingRights {
        CastlingRights {
            white_short: self.white_short || castling == Castling::WhiteShort,
            white_long: self.white_long || castling == Castling::WhiteLong,
            black_short: self.black_short || castling == Castling::BlackShort,
            black_long: self.black_long || castling == Castling::BlackLong,
        }
    }

    /// The rights with one given up.
    pub open spec fn without(self, castling: Castling) -> CastlingRights {
        CastlingRights {
            white_short: self.white_short && castling != Castling::WhiteShort,
            white_long: self.white_long && castling != Castling::WhiteLong,
            black_short: self.black_short && castling != Castling::BlackShort,
            black_long: self.black_long && castling != Castling::BlackLong,
        }
    }

    /// Returns the empty set of rights.
    pub fn none() -> (rights: CastlingRights)
        ensures
            rights == (CastlingRights {
                white_short: false,
                white_long: false,
                black_short: false,
                black_long: false,
            }),
            rights@ == Set::<Castling>::empty(),
    {
        let rights = CastlingRights {
            white_short: false,
            white_long: false,
            black_short: false,
            black_long: false,
        };
        assert(rights@ =~= Set::<Castling>::empty());
        rights
    }

    /// Tells whether the right to the given castling move is held.
    pub fn contains(&self, castling: Castling) -> (held: bool)
        ensures
            held == self.holds(castling),
            held == self@.contains(castling),
    {
        match castling {
            Castling::WhiteShort => self.white_short,
            Castling::WhiteLong => self.white_long,
            Castling::BlackShort => self.black_short,
            Castling::BlackLong => self.black_long,
        }
    }

    /// Tells whether no right is held.
    pub fn is_empty(&self) -> (empty: bool)
        ensures
            empty == (forall|c: Castling| !self.holds(c)),
            empty == (self@ == Set::<Castling>::empty()),
    {
        let empty = !self.white_short && !self.white_long && !self.black_short
            && !self.black_long;
        proof {
            if empty {
                assert(self@ =~= Set::<Castling>::empty());
            } else {
                if self.white_short {
                    assert(self.holds(Castling::WhiteShort));
                    assert(self@.contains(Castling::WhiteShort));
                } else if self.white_long {
                    assert(self.holds(Castling::WhiteLong));
                    assert(self@.contains(Castling::WhiteLong));
                } else if self.black_short {
                    assert(self.holds(Castling::BlackShort));
                    assert(self@.contains(Castling::BlackShort));
                } else {
                    assert(self.holds(Castling::BlackLong));
                    assert(self@.contains(Castling::BlackLong));
                }
            }
        }
        empty
    }

    /// Adds a right; one that is held already stays.
    pub fn insert(&mut self, castling: Castling)
        ensures
            *final(self) == old(self).with(castling),
            final(self)@ == old(self)@.insert(castling),
    {
        match castling {
            Castling::WhiteShort => { self.white_short = true; },
            Castling::WhiteLong => { self.white_long = true; },
            Castling::BlackShort => { self.black_short = true; },
            Castling::BlackLong => { self.black_long = true; },
        }
        assert(self@ =~= old(self)@.insert(castling));
    }

    /// Gives a right up; one that is not held stays away.
    pub fn remove(&mut self, castling: Castling)
        ensures
            *final(self) == old(self).without(castling),
            final(self)@ == old(self)@.remove(castling),
    {
        match castling {
            Castling::WhiteShort => { self.white_short = false; },
            Castling::WhiteLong => { self.white_long = false; },
            Castling::BlackShort => { self.black_short = false; },
            Castling::BlackLong => { self.black_long = false; },
        }
        assert(self@ =~= old(self)@.remove(castling));
    }
}

/// Returns the full set of rights, as a game starts with.
pub fn all_castling() -> (rights: CastlingRights)
    ensures
        rights == (CastlingRights {
            white_short: true,
            white_long: true,
            black_short: true,
            black_long: true,
        }),
        rights@ == Set::<Castling>::full(),
{
    let rights = CastlingRights {
        white_short: true,
        white_long: true,
        black_short: true,
        black_long: true,
    };
    assert(rights@ =~= Set::<Castling>::full());
    rights
}

} // verus!
