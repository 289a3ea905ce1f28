//! A header collection: a list of name/value byte strings with unique names,
//! viewed in contracts as a map from name to value. Inserting an existing
//! name replaces its value (last write wins), and the order of entries
//! carries no meaning.

use vstd::prelude::*;

verus! {

/// The map a sequence of name/value pairs denotes: later pairs win.
pub open spec fn map_of(ps: Seq<(Seq<u8>, Seq<u8>)>) -> Map<Seq<u8>, Seq<u8>>
    decreases ps.len(),
{
    if ps.len() == 0 {
        Map::empty()
    } else {
        map_of(ps.drop_last()).insert(ps.last().0, ps.last().1)
    }
}

/// A key is in the map exactly when some pair carries it.
pub proof fn lemma_map_of_contains(ps: Seq<(Seq<u8>, Seq<u8>)>, k: Seq<u8>)
    ensures
        map_of(ps).contains_key(k) <==> exists|i: int| 0 <= i < ps.len() && ps[i].0 == k,
    decreases ps.len(),
{
    if ps.len() > 0 {
        lemma_map_of_contains(ps.drop_last(), k);
        if ps.last().0 == k {
            assert(ps[ps.len() - 1].0 == k);
        } else if map_of(ps).contains_key(k) {
            let i = choose|i: int| 0 <= i < ps.drop_last().len() && ps.drop_last()[i].0 == k;
            assert(ps[i].0 == k);
        } else {
            assert(forall|i: int|
                0 <= i < ps.len() - 1 && ps[i].0 == k ==> ps.drop_last()[i].0 == k);
        }
    }
}

/// A pair whose key no later pair repeats gives the map's value at that key.
pub proof fn lemma_map_of_index(ps: Seq<(Seq<u8>, Seq<u8>)>, i: int)
    requires
        0 <= i < ps.len(),
        forall|j: int| i < j < ps.len() ==> ps[j].0 != ps[i].0,
    ensures
        map_of(ps).contains_key(ps[i].0),
        map_of(ps)[ps[i].0] == ps[i].1,
    decreases ps.len(),
{
    if i == ps.len() - 1 {
    } else {
        assert(ps.drop_last()[i] == ps[i]);
        lemma_map_of_index(ps.drop_last(), i);
    }
}

/// A collection of header name/value pairs with pairwise distinct names.
pub struct Headers {
    pub pairs: Vec<(Vec<u8>, Vec<u8>)>,
}

impl View for Headers {
    type V = Map<Seq<u8>, Seq<u8>>;

    open spec fn view(&self) -> Map<Seq<u8>, Seq<u8>> {
        map_of(self.entries())
    }
}

impl Headers {
    /// The entries as a sequence, in storage order.
    pub open spec fn entries(&self) -> Seq<(Seq<u8>, Seq<u8>)> {
        Seq::new(self.pairs@.len(), |i: int| (self.pairs@[i].0@, self.pairs@[i].1@))
    }

    /// Well-formed: no header name occurs twice.
    pub open spec fn wf(&self) -> bool {
        forall|i: int, j: int|
            0 <= i < j < self.entries().len() ==> self.entries()[i].0 != self.entries()[j].0
    }

    /// An empty collection.
    pub fn new() -> (r: Headers)
        ensures
            r.wf(),
            r@ == Map::<Seq<u8>, Seq<u8>>::empty(),
            r.entries() == Seq::<(Seq<u8>, Seq<u8>)>::empty(),
    {
        let r = Headers { pairs: Vec::new() };
        assert(r.entries() =~= Seq::<(Seq<u8>, Seq<u8>)>::empty());
        r
    }

    /// The position of a name among the entries, if it occurs.
    fn index_of(&self, key: &[u8]) -> (r: Option<usize>)
        ensures
            match r {
                Some(i) => i < self.entries().len() && self.entries()[i as int].0 == key@,
                None => forall|j: int| 0 <= j < self.entries().len() ==> self.entries()[j].0 != key@,
            },
    {
        let mut i: usize = 0;
        while i < self.pairs.len()
            invariant
                0 <= i <= self.pairs.len(),
                forall|j: int| 0 <= j < i ==> self.entries()[j].0 != key@,
            decreases self.pairs.len() - i,
        {
            if crate::text::bytes_eq(self.pairs[i].0.as_slice(), key) {
                return Some(i);
            }
            i += 1;
        }
        None
    }

    /// Store a value under a name, replacing any value the name had.
    pub fn insert(&mut self, key: Vec<u8>, value: Vec<u8>)
        requires
            old(self).wf(),
        ensures
            final(self).wf(),
            final(self)@ == old(self)@.insert(key@, value@),
    {
        let ghost before = self.entries();
        match self.index_of(key.as_slice()) {
            Some(i) => {
                self.pairs.remove(i);
                proof {
                    assert(self.entries() =~= before.remove(i as int));
                    lemma_map_of_remove_unique(before, i as int);
                    assert forall|j: int| 0 <= j < self.entries().len() implies self.entries()[j].0
                        != key@ by {
                        if j < i {
                            assert(self.entries()[j] == before[j]);
                        } else {
                            assert(self.entries()[j] == before[j + 1]);
                        }
                    }
                    assert forall|a: int, b: int|
                        0 <= a < b < self.entries().len() implies self.entries()[a].0
                        != self.entries()[b].0 by {
                        let a0: int = if a < i { a } else { a + 1 };
                        let b0: int = if b < i { b } else { b + 1 };
                        assert(self.entries()[a] == before[a0]);
                        assert(self.entries()[b] == before[b0]);
                    }
                }
            },
            None => {},
        }
        let ghost mid = self.entries();
        let ghost mid_map = map_of(mid);
        self.pairs.push((key, value));
        proof {
            assert(self.entries().drop_last() =~= mid);
            assert(self.entries().last() == (key@, value@));
            assert(self.entries() == mid.push((key@, value@)));
            assert(map_of(self.entries()) == mid_map.insert(key@, value@));
            assert(mid_map.insert(key@, value@) =~= old(self)@.insert(key@, value@));
            assert forall|a: int, b: int|
                0 <= a < b < self.entries().len() implies self.entries()[a].0
                != self.entries()[b].0 by {
                if b == self.entries().len() - 1 {
                    assert(self.entries()[a] == mid[a]);
                } else {
                    assert(self.entries()[a] == mid[a]);
                    assert(self.entries()[b] == mid[b]);
                }
            }
        }
    }

    /// Look a name up; `None` exactly when the name is absent.
    pub fn get(&self, key: &[u8]) -> (r: Option<&Vec<u8>>)
        requires
            self.wf(),
        ensures
            match r {
                Some(v) => self@.contains_key(key@) && v@ == self@[key@],
                None => !self@.contains_key(key@),
            },
    {
        let mut i: usize = 0;
        while i < self.pairs.len()
            invariant
                0 <= i <= self.pairs.len(),
                self.wf(),
                forall|j: int| 0 <= j < i ==> self.entries()[j].0 != key@,
            decreases self.pairs.len() - i,
        {
            if crate::text::bytes_eq(self.pairs[i].0.as_slice(), key) {
                proof {
                    lemma_map_of_index(self.entries(), i as int);
                }
                return Some(&self.pairs[i].1);
            }
            i += 1;
        }
        proof {
            lemma_map_of_contains(self.entries(), key@);
        }
        None
    }
}

/// Removing the only pair that carries a key removes that key, and no other,
/// from the denoted map.
pub proof fn lemma_map_of_remove_unique(ps: Seq<(Seq<u8>, Seq<u8>)>, i: int)
    requires
        0 <= i < ps.len(),
        forall|j: int| 0 <= j < ps.len() && j != i ==> ps[j].0 != ps[i].0,
    ensures
        map_of(ps.remove(i)) == map_of(ps).remove(ps[i].0),
    decreases ps.len(),
{
    if i == ps.len() - 1 {
        assert(ps.remove(i) =~= ps.drop_last());
        assert(!map_of(ps.drop_last()).contains_key(ps[i].0)) by {
            lemma_map_of_contains(ps.drop_last(), ps[i].0);
        }
        assert(map_of(ps.drop_last()) =~= map_of(ps).remove(ps[i].0));
    } else {
        let qs = ps.remove(i);
        assert(qs.drop_last() =~= ps.drop_last().remove(i));
        assert(qs.last() == ps.last());
        lemma_map_of_remove_unique(ps.drop_last(), i);
        assert(map_of(qs) == map_of(ps.drop_last()).remove(ps[i].0).insert(
            ps.last().0,
            ps.last().1,
        ));
        assert(ps.last().0 != ps[i].0);
        assert(map_of(ps.drop_last()).remove(ps[i].0).insert(ps.last().0, ps.last().1)
            =~= map_of(ps.drop_last()).insert(ps.last().0, ps.last().1).remove(ps[i].0));
    }
}

} // verus!
