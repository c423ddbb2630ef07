//! A header map: names are compared exactly (case-sensitive), and each name
//! occurs at most once, the last value written for it being kept.
use vstd::prelude::*;

verus! {

pub struct HeaderMap {
    entries: Vec<(String, String)>,
}

pub open spec fn pair_view(p: (String, String)) -> (Seq<char>, Seq<char>) {
    (p.0@, p.1@)
}

/// No name occurs twice.
pub open spec fn distinct_names(es: Seq<(Seq<char>, Seq<char>)>) -> bool {
    forall|i: int, j: int|
        0 <= i < es.len() && 0 <= j < es.len() && #[trigger] es[i].0 == #[trigger] es[j].0 ==> i
            == j
}

/// The map that a list of (name, value) entries with distinct names denotes.
pub open spec fn entries_map(es: Seq<(Seq<char>, Seq<char>)>) -> Map<Seq<char>, Seq<char>> {
    Map::new(
        |k: Seq<char>| exists|i: int| 0 <= i < es.len() && es[i].0 == k,
        |k: Seq<char>| es[choose|i: int| 0 <= i < es.len() && es[i].0 == k].1,
    )
}

impl HeaderMap {
    /// The entries in the order in which they are written out.
    pub closed spec fn entries(&self) -> Seq<(Seq<char>, Seq<char>)> {
        self.entries@.map_values(|p: (String, String)| pair_view(p))
    }

    /// No name occurs twice among the entries.
    #[verifier::type_invariant]
    spec fn wf(self) -> bool {
        distinct_names(self.entries())
    }

    pub open spec fn view(&self) -> Map<Seq<char>, Seq<char>> {
        entries_map(self.entries())
    }

    pub fn new() -> (r: HeaderMap)
        ensures
            r.entries() == Seq::<(Seq<char>, Seq<char>)>::empty(),
            r@ == Map::<Seq<char>, Seq<char>>::empty(),
    {
        let r = HeaderMap { entries: Vec::new() };
        assert(r.entries() =~= seq![]);
        assert(r@ =~= Map::<Seq<char>, Seq<char>>::empty());
        r
    }

    pub fn len(&self) -> (r: usize)
        ensures
            r == self.entries().len(),
    {
        self.entries.len()
    }

    /// The `i`-th entry, in the order in which entries are written out.
    pub fn entry(&self, i: usize) -> (r: (&String, &String))
        requires
            i < self.entries().len(),
        ensures
            (r.0@, r.1@) == self.entries()[i as int],
    {
        let e = &self.entries[i];
        (&e.0, &e.1)
    }

    /// Where `name` stands among the entries, if it does.
    fn position(&self, name: &String) -> (r: Option<usize>)
        ensures
            r is None <==> !self@.contains_key(name@),
            r matches Some(i) ==> i < self.entries().len() && self.entries()[i as int].0
                == name@,
    {
        let n = self.entries.len();
        let mut i: usize = 0;
        while i < n
            invariant
                n == self.entries().len(),
                i <= n,
                forall|j: int| 0 <= j < i ==> self.entries()[j].0 != name@,
            decreases n - i,
        {
            if self.entries[i].0 == *name {
                assert(self.entries()[i as int].0 == name@);
                assert(self@.contains_key(name@));
                return Some(i);
            }
            i += 1;
        }
        None
    }

    /// The value stored under `name`.
    pub fn get(&self, name: &String) -> (r: Option<&String>)
        ensures
            r is Some <==> self@.contains_key(name@),
            r matches Some(v) ==> v@ == self@[name@],
    {
        proof {
            use_type_invariant(self);
        }
        match self.position(name) {
            Some(i) => {
                let ghost es = self.entries();
                assert(self@.contains_key(name@));
                let ghost c = choose|j: int| 0 <= j < es.len() && es[j].0 == name@;
                assert(es[c].0 == es[i as int].0);
                Some(&self.entries[i].1)
            },
            None => None,
        }
    }

    /// Stores `value` under `name`, replacing the value it had.
    pub fn insert(&mut self, name: String, value: String)
        ensures
            final(self)@ == old(self)@.insert(name@, value@),
    {
        proof {
            use_type_invariant(&*self);
        }
        let ghost old_es = self.entries();
        let pos = self.position(&name);
        let mut taken = HeaderMap { entries: Vec::new() };
        assert(taken.entries() =~= Seq::<(Seq<char>, Seq<char>)>::empty());
        core::mem::swap(self, &mut taken);
        let mut entries = taken.entries;
        match pos {
            Some(i) => {
                entries.set(i, (name, value));
                proof {
                    let ne = entries@.map_values(|p: (String, String)| pair_view(p));
                    assert(ne =~= old_es.update(i as int, (name@, value@)));
                    assert(distinct_names(ne)) by {
                        assert forall|a: int, b: int|
                            0 <= a < ne.len() && 0 <= b < ne.len() && #[trigger] ne[a].0
                                == #[trigger] ne[b].0 implies a == b by {
                            assert(ne[a].0 == old_es[a].0 && ne[b].0 == old_es[b].0);
                        }
                    }
                }
                *self = HeaderMap { entries };
                let ghost es = self.entries();
                assert(es =~= old_es.update(i as int, (name@, value@)));
                assert forall|k: Seq<char>| #[trigger] self@.contains_key(k) == old(self)@.insert(
                    name@,
                    value@,
                ).contains_key(k) by {
                    if k != name@ && old(self)@.contains_key(k) {
                        let j = choose|j: int| 0 <= j < old_es.len() && old_es[j].0 == k;
                        assert(es[j].0 == k);
                    }
                    if k == name@ {
                        assert(es[i as int].0 == k);
                    }
                }
                assert forall|k: Seq<char>| #[trigger] self@.contains_key(k) implies self@[k]
                    == old(self)@.insert(name@, value@)[k] by {
                    let c = choose|j: int| 0 <= j < es.len() && es[j].0 == k;
                    if k != name@ {
                        let c0 = choose|j: int| 0 <= j < old_es.len() && old_es[j].0 == k;
                        assert(es[c0].0 == k);
                    } else {
                        assert(es[i as int].0 == k);
                    }
                }
                assert(self@ =~= old(self)@.insert(name@, value@));
            },
            None => {
                entries.push((name, value));
                proof {
                    let ne = entries@.map_values(|p: (String, String)| pair_view(p));
                    let m = old_es.len() as int;
                    assert(ne =~= old_es.push((name@, value@)));
                    assert(forall|j: int| 0 <= j < m ==> old_es[j].0 != name@);
                    assert(distinct_names(ne)) by {
                        assert forall|a: int, b: int|
                            0 <= a < ne.len() && 0 <= b < ne.len() && #[trigger] ne[a].0
                                == #[trigger] ne[b].0 implies a == b by {
                            if a < m && b < m {
                                assert(ne[a].0 == old_es[a].0 && ne[b].0 == old_es[b].0);
                            } else if a < m {
                                assert(ne[a].0 == old_es[a].0);
                            } else if b < m {
                                assert(ne[b].0 == old_es[b].0);
                            }
                        }
                    }
                }
                *self = HeaderMap { entries };
                let ghost es = self.entries();
                let ghost n: int = old_es.len() as int;
                assert(es =~= old_es.push((name@, value@)));
                assert forall|k: Seq<char>| #[trigger] self@.contains_key(k) == old(self)@.insert(
                    name@,
                    value@,
                ).contains_key(k) by {
                    if k != name@ && old(self)@.contains_key(k) {
                        let j = choose|j: int| 0 <= j < old_es.len() && old_es[j].0 == k;
                        assert(es[j].0 == k);
                    }
                    if k == name@ {
                        assert(es[n].0 == k);
                    }
                }
                assert forall|k: Seq<char>| #[trigger] self@.contains_key(k) implies self@[k]
                    == old(self)@.insert(name@, value@)[k] by {
                    let c = choose|j: int| 0 <= j < es.len() && es[j].0 == k;
                    if k != name@ {
                        let c0 = choose|j: int| 0 <= j < old_es.len() && old_es[j].0 == k;
                        assert(es[c0].0 == k);
                    } else {
                        assert(es[n].0 == k);
                    }
                }
                assert(self@ =~= old(self)@.insert(name@, value@));
            },
        }
    }
}

} // verus!
