//! Cell attributes and the small set of them that each grid cell carries.

use vstd::prelude::*;

verus! {

/// One hazard or percept marker that a cell can carry.
#[derive(Clone, Copy, PartialEq, Eq, Structural, Debug)]
pub enum Attr {
    Wumpus,
    Pit,
    Gold,
    Stench,
    Breeze,
    Glitter,
}

/// A set over the six cell attributes: membership only, no duplicates,
/// no ordering. Viewed as a mathematical `Set<Attr>`.
#[derive(Clone, Copy, PartialEq, Eq, Structural, Debug)]
pub struct AttrSet {
    wumpus: bool,
    pit: bool,
    gold: bool,
    stench: bool,
    breeze: bool,
    glitter: bool,
}

impl AttrSet {
    pub closed spec fn has(self, a: Attr) -> bool {
        match a {
            Attr::Wumpus => self.wumpus,
            Attr::Pit => self.pit,
            Attr::Gold => self.gold,
            Attr::Stench => self.stench,
            Attr::Breeze => self.breeze,
            Attr::Glitter => self.glitter,
        }
    }

    /// The empty attribute set.
    pub fn empty() -> (r: AttrSet)
        ensures
            r@ == Set::<Attr>::empty(),
    {
        let r = AttrSet {
            wumpus: false,
            pit: false,
            gold: false,
            stench: false,
            breeze: false,
            glitter: false,
        };
        proof {
            assert(r@ =~= Set::<Attr>::empty());
        }
        r
    }

    /// Membership test.
    pub fn contains(&self, a: Attr) -> (r: bool)
        ensures
            r == self@.contains(a),
    {
        match a {
            Attr::Wumpus => self.wumpus,
            Attr::Pit => self.pit,
            Attr::Gold => self.gold,
            Attr::Stench => self.stench,
            Attr::Breeze => self.breeze,
            Attr::Glitter => self.glitter,
        }
    }

    /// Adds an attribute; adding one already present changes nothing.
    pub fn insert(&mut self, a: Attr)
        ensures
            final(self)@ == old(self)@.insert(a),
    {
        match a {
            Attr::Wumpus => self.wumpus = true,
            Attr::Pit => self.pit = true,
            Attr::Gold => self.gold = true,
            Attr::Stench => self.stench = true,
            Attr::Breeze => self.breeze = true,
            Attr::Glitter => self.glitter = true,
        }
        proof {
            assert(self@ =~= old(self)@.insert(a));
        }
    }

    /// Removes an attribute; removing one not present changes nothing.
    pub fn remove(&mut self, a: Attr)
        ensures
            final(self)@ == old(self)@.remove(a),
    {
        match a {
            Attr::Wumpus => self.wumpus = false,
            Attr::Pit => self.pit = false,
            Attr::Gold => self.gold = false,
            Attr::Stench => self.stench = false,
            Attr::Breeze => self.breeze = false,
            Attr::Glitter => self.glitter = false,
        }
        proof {
            assert(self@ =~= old(self)@.remove(a));
        }
    }

    /// True when the set holds no attribute at all.
    pub fn is_empty(&self) -> (r: bool)
        ensures
            r == self@.is_empty(),
    {
        let r = !(self.wumpus || self.pit || self.gold || self.stench || self.breeze
            || self.glitter);
        proof {
            if r {
                assert(self@ =~= Set::<Attr>::empty());
            } else {
                assert(!self@.is_empty()) by {
                    if self.wumpus {
                        assert(self@.contains(Attr::Wumpus));
                    } else if self.pit {
                        assert(self@.contains(Attr::Pit));
                    } else if self.gold {
                        assert(self@.contains(Attr::Gold));
                    } else if self.stench {
                        assert(self@.contains(Attr::Stench));
                    } else if self.breeze {
                        assert(self@.contains(Attr::Breeze));
                    } else {
                        assert(self@.contains(Attr::Glitter));
                    }
                }
            }
        }
        r
    }
}

impl View for AttrSet {
    type V = Set<Attr>;

    closed spec fn view(&self) -> Set<Attr> {
        Set::new(|a: Attr| self.has(a))
    }
}

} // verus!
