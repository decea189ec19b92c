//! A map from names to paths, built from `(name, path)` pairs where a later pair for a
//! name replaces an earlier one.

use crate::text::same_text;
use vstd::prelude::*;

verus! {

/// The map that a list of `(name, path)` pairs denotes: later pairs win.
pub open spec fn pairs_map(ps: Seq<(Seq<char>, Seq<char>)>) -> Map<Seq<char>, Seq<char>>
    decreases ps.len(),
{
    if ps.len() == 0 {
        Map::empty()
    } else {
        pairs_map(ps.drop_last()).insert(ps.last().0, ps.last().1)
    }
}

/// The text view of a list of string pairs.
pub open spec fn pairs_view(v: Seq<(String, String)>) -> Seq<(Seq<char>, Seq<char>)> {
    v.map_values(|p: (String, String)| (p.0@, p.1@))
}

/// Names mapped to paths; a later pair for a name replaces an earlier one.
pub struct PathMap {
    pub pairs: Vec<(String, String)>,
}

impl View for PathMap {
    type V = Map<Seq<char>, Seq<char>>;

    open spec fn view(&self) -> Map<Seq<char>, Seq<char>> {
        pairs_map(pairs_view(self.pairs@))
    }
}

/// Lemma: pairs after the last pair for `k` do not change what `k` maps to.
pub proof fn lemma_pairs_map_prefix(ps: Seq<(Seq<char>, Seq<char>)>, j: int, k: Seq<char>)
    requires
        0 <= j <= ps.len(),
        forall|i: int| j <= i < ps.len() ==> (#[trigger] ps[i]).0 != k,
    ensures
        pairs_map(ps).contains_key(k) == pairs_map(ps.take(j)).contains_key(k),
        pairs_map(ps).contains_key(k) ==> pairs_map(ps)[k] == pairs_map(ps.take(j))[k],
    decreases ps.len() - j,
{
    if j < ps.len() {
        assert(ps.drop_last().take(j) =~= ps.take(j));
        assert(ps.last() == ps[ps.len() - 1]);
        lemma_pairs_map_prefix(ps.drop_last(), j, k);
    } else {
        assert(ps.take(j) =~= ps);
    }
}

/// Lemma: the map holds exactly the names of the pairs.
pub proof fn lemma_pairs_map_dom(ps: Seq<(Seq<char>, Seq<char>)>, k: Seq<char>)
    ensures
        pairs_map(ps).contains_key(k) <==> exists|i: int| 0 <= i < ps.len() && (#[trigger] ps[i]).0 == k,
    decreases ps.len(),
{
    if ps.len() > 0 {
        lemma_pairs_map_dom(ps.drop_last(), k);
        if exists|i: int| 0 <= i < ps.len() && (#[trigger] ps[i]).0 == k {
            let i = choose|i: int| 0 <= i < ps.len() && (#[trigger] ps[i]).0 == k;
            if i < ps.len() - 1 {
                assert(ps.drop_last()[i] == ps[i]);
            }
        }
        if exists|i: int| 0 <= i < ps.drop_last().len() && (#[trigger] ps.drop_last()[i]).0 == k {
            let i = choose|i: int| 0 <= i < ps.drop_last().len() && (#[trigger] ps.drop_last()[i]).0 == k;
            assert(ps[i] == ps.drop_last()[i]);
        }
    }
}

impl PathMap {
    /// The map with no names.
    pub fn empty() -> (r: PathMap)
        ensures
            r@ == Map::<Seq<char>, Seq<char>>::empty(),
            r.pairs@.len() == 0,
    {
        PathMap { pairs: Vec::new() }
    }

    /// The path that `name` maps to.
    pub fn get(&self, name: &str) -> (r: Option<&String>)
        ensures
            match r {
                Some(p) => self@.contains_key(name@) && self@[name@] == p@,
                None => !self@.contains_key(name@),
            },
    {
        let ghost ps = pairs_view(self.pairs@);
        let mut j = self.pairs.len();
        while j > 0
            invariant
                j <= self.pairs@.len(),
                ps == pairs_view(self.pairs@),
                forall|i: int| j <= i < ps.len() ==> (#[trigger] ps[i]).0 != name@,
            decreases j,
        {
            if same_text(self.pairs[j - 1].0.as_str(), name) {
                proof {
                    lemma_pairs_map_prefix(ps, j as int, name@);
                    assert(ps.take(j as int).drop_last() =~= ps.take(j - 1));
                    assert(ps.take(j as int).last() == ps[j - 1]);
                }
                return Some(&self.pairs[j - 1].1);
            }
            j = j - 1;
        }
        proof {
            lemma_pairs_map_dom(ps, name@);
        }
        None
    }

    /// Whether no name is mapped.
    pub fn is_empty(&self) -> (r: bool)
        ensures
            r == (self@ == Map::<Seq<char>, Seq<char>>::empty()),
            r == (self.pairs@.len() == 0),
    {
        proof {
            let ps = pairs_view(self.pairs@);
            if ps.len() > 0 {
                lemma_pairs_map_dom(ps, ps[0].0);
                assert(self@.contains_key(ps[0].0));
                assert(!Map::<Seq<char>, Seq<char>>::empty().contains_key(ps[0].0));
            } else {
                assert(self@ =~= Map::<Seq<char>, Seq<char>>::empty());
            }
        }
        self.pairs.len() == 0
    }
}

} // verus!
