//! The agent's belief state: a knowledge base of percepts recorded at
//! visited cells, and the set of cells it currently believes safe.

use vstd::prelude::*;

use crate::attr::Attr;
use crate::attr::AttrSet;

verus! {

/// A coordinate pair of machine integers, read as mathematical ones.
pub open spec fn coord_view(p: (usize, usize)) -> (int, int) {
    (p.0 as int, p.1 as int)
}

/// The knowledge base that a record of entries denotes: later entries
/// for the same coordinate overwrite earlier ones.
pub open spec fn kb_map_of(s: Seq<((usize, usize), AttrSet)>) -> Map<(int, int), Set<Attr>>
    decreases s.len(),
{
    if s.len() == 0 {
        Map::empty()
    } else {
        kb_map_of(s.drop_last()).insert(coord_view(s.last().0), s.last().1@)
    }
}

/// The set of coordinates that a record of entries denotes.
pub open spec fn coord_set_of(s: Seq<(usize, usize)>) -> Set<(int, int)>
    decreases s.len(),
{
    if s.len() == 0 {
        Set::empty()
    } else {
        coord_set_of(s.drop_last()).insert(coord_view(s.last()))
    }
}

/// Row-major order on coordinates: earlier row first, then earlier
/// column. The deterministic tie-break that move decisions use.
pub open spec fn row_major_le(a: (int, int), b: (int, int)) -> bool {
    a.0 < b.0 || (a.0 == b.0 && a.1 <= b.1)
}

/// A coordinate is in the denoted knowledge base exactly when some
/// entry of the record carries it.
proof fn lemma_kb_dom(s: Seq<((usize, usize), AttrSet)>, k: (int, int))
    ensures
        kb_map_of(s).dom().contains(k) <==> exists|t: int|
            0 <= t < s.len() && coord_view(#[trigger] s[t].0) == k,
    decreases s.len(),
{
    if s.len() == 0 {
    } else {
        lemma_kb_dom(s.drop_last(), k);
        if coord_view(s.last().0) == k {
            assert(coord_view(s[s.len() - 1].0) == k);
        } else if exists|t: int| 0 <= t < s.len() && coord_view(#[trigger] s[t].0) == k {
            let t = choose|t: int| 0 <= t < s.len() && coord_view(#[trigger] s[t].0) == k;
            assert(coord_view(s.drop_last()[t].0) == k);
        }
    }
}

/// A coordinate is in the denoted set exactly when some entry of the
/// record carries it.
proof fn lemma_coord_set(s: Seq<(usize, usize)>, k: (int, int))
    ensures
        coord_set_of(s).contains(k) <==> exists|t: int|
            0 <= t < s.len() && coord_view(#[trigger] s[t]) == k,
    decreases s.len(),
{
    if s.len() == 0 {
    } else {
        lemma_coord_set(s.drop_last(), k);
        if coord_view(s.last()) == k {
            assert(coord_view(s[s.len() - 1]) == k);
        } else if exists|t: int| 0 <= t < s.len() && coord_view(#[trigger] s[t]) == k {
            let t = choose|t: int| 0 <= t < s.len() && coord_view(#[trigger] s[t]) == k;
            assert(coord_view(s.drop_last()[t]) == k);
        }
    }
}

pub struct Agent {
    kb: Vec<((usize, usize), AttrSet)>,
    safe_cells: Vec<(usize, usize)>,
}

impl Agent {
    /// The knowledge base: visited coordinate to the percept set
    /// recorded there, latest recording winning.
    pub closed spec fn kb(self) -> Map<(int, int), Set<Attr>> {
        kb_map_of(self.kb@)
    }

    /// The set of coordinates currently believed hazard-free.
    pub closed spec fn safe(self) -> Set<(int, int)> {
        coord_set_of(self.safe_cells@)
    }

    /// A fresh agent: empty knowledge base, and only the start cell
    /// (0, 0) believed safe.
    pub fn new() -> (a: Agent)
        ensures
            a.kb() == Map::<(int, int), Set<Attr>>::empty(),
            a.safe() == Set::<(int, int)>::empty().insert((0int, 0int)),
    {
        let mut safe_cells: Vec<(usize, usize)> = Vec::new();
        safe_cells.push((0, 0));
        let a = Agent { kb: Vec::new(), safe_cells };
        proof {
            let s = a.safe_cells@;
            assert(s.drop_last() == Seq::<(usize, usize)>::empty()) by {
                assert(s.drop_last() =~= Seq::<(usize, usize)>::empty());
            }
            assert(coord_set_of(Seq::<(usize, usize)>::empty()) == Set::<(int, int)>::empty());
            assert(s.last() == (0usize, 0usize));
            assert(a.safe() =~= Set::<(int, int)>::empty().insert((0int, 0int)));
        }
        a
    }

    /// True when the knowledge base already holds an entry for `p`.
    pub fn knows(&self, p: (usize, usize)) -> (r: bool)
        ensures
            r == self.kb().dom().contains(coord_view(p)),
    {
        let len = self.kb.len();
        let mut i: usize = 0;
        while i < len
            invariant
                i <= len,
                len == self.kb@.len(),
                forall|t: int| 0 <= t < i ==> coord_view(#[trigger] self.kb@[t].0) != coord_view(p),
            decreases len - i,
        {
            let q = self.kb[i].0;
            if q.0 == p.0 && q.1 == p.1 {
                proof {
                    lemma_kb_dom(self.kb@, coord_view(p));
                }
                return true;
            }
            i = i + 1;
        }
        proof {
            lemma_kb_dom(self.kb@, coord_view(p));
        }
        false
    }

    /// Records `percepts` under `pos`, overwriting any prior entry.
    /// When the percepts hold neither Breeze nor Stench, `pos` itself
    /// joins the safe set; no inference touches its neighbors. The
    /// result signals goal-found: it is true exactly when the percepts
    /// hold Glitter.
    pub fn update_knowledge(&mut self, pos: (usize, usize), percepts: AttrSet) -> (goal: bool)
        ensures
            final(self).kb() == old(self).kb().insert(coord_view(pos), percepts@),
            !percepts@.contains(Attr::Breeze) && !percepts@.contains(Attr::Stench)
                ==> final(self).safe() == old(self).safe().insert(coord_view(pos)),
            percepts@.contains(Attr::Breeze) || percepts@.contains(Attr::Stench)
                ==> final(self).safe() == old(self).safe(),
            goal == percepts@.contains(Attr::Glitter),
    {
        self.kb.push((pos, percepts));
        proof {
            assert(self.kb@.drop_last() =~= old(self).kb@);
        }
        if !percepts.contains(Attr::Breeze) && !percepts.contains(Attr::Stench) {
            self.safe_cells.push(pos);
            proof {
                assert(self.safe_cells@.drop_last() =~= old(self).safe_cells@);
            }
        }
        percepts.contains(Attr::Glitter)
    }

    /// Picks the next cell to explore: the row-major least safe cell
    /// that the knowledge base does not hold yet, or nothing when
    /// every safe cell has already been visited.
    pub fn decide_next_move(&self) -> (r: Option<(usize, usize)>)
        ensures
            match r {
                Option::Some(c) => {
                    &&& self.safe().contains(coord_view(c))
                    &&& !self.kb().dom().contains(coord_view(c))
                    &&& forall|d: (int, int)|
                        self.safe().contains(d) && !self.kb().dom().contains(d)
                            ==> #[trigger] row_major_le(coord_view(c), d)
                },
                Option::None => forall|d: (int, int)|
                    self.safe().contains(d) ==> self.kb().dom().contains(d),
            },
    {
        let len = self.safe_cells.len();
        let mut best: Option<(usize, usize)> = None;
        let mut i: usize = 0;
        while i < len
            invariant
                i <= len,
                len == self.safe_cells@.len(),
                match best {
                    Option::Some(b) => {
                        &&& exists|t: int|
                            0 <= t < i && coord_view(#[trigger] self.safe_cells@[t]) == coord_view(
                                b,
                            )
                        &&& !self.kb().dom().contains(coord_view(b))
                        &&& forall|t: int|
                            0 <= t < i && !self.kb().dom().contains(
                                coord_view(#[trigger] self.safe_cells@[t]),
                            ) ==> row_major_le(coord_view(b), coord_view(self.safe_cells@[t]))
                    },
                    Option::None => forall|t: int|
                        0 <= t < i ==> self.kb().dom().contains(
                            coord_view(#[trigger] self.safe_cells@[t]),
                        ),
                },
            decreases len - i,
        {
            let s = self.safe_cells[i];
            if !self.knows(s) {
                match best {
                    Option::None => {
                        best = Some(s);
                    },
                    Option::Some(b) => {
                        if s.0 < b.0 || (s.0 == b.0 && s.1 < b.1) {
                            best = Some(s);
                        }
                    },
                }
            }
            i = i + 1;
        }
        proof {
            match best {
                Option::Some(b) => {
                    lemma_coord_set(self.safe_cells@, coord_view(b));
                    assert forall|d: (int, int)|
                        self.safe().contains(d) && !self.kb().dom().contains(
                            d,
                        ) implies #[trigger] row_major_le(coord_view(b), d) by {
                        lemma_coord_set(self.safe_cells@, d);
                        let t = choose|t: int|
                            0 <= t < self.safe_cells@.len() && coord_view(
                                #[trigger] self.safe_cells@[t],
                            ) == d;
                        assert(row_major_le(coord_view(b), coord_view(self.safe_cells@[t])));
                    }
                },
                Option::None => {
                    assert forall|d: (int, int)| self.safe().contains(d) implies self.kb(
                    ).dom().contains(d) by {
                        lemma_coord_set(self.safe_cells@, d);
                        let t = choose|t: int|
                            0 <= t < self.safe_cells@.len() && coord_view(
                                #[trigger] self.safe_cells@[t],
                            ) == d;
                        assert(self.kb().dom().contains(coord_view(self.safe_cells@[t])));
                    }
                },
            }
        }
        best
    }
}

} // verus!
