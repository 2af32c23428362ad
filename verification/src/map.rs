use vstd::prelude::*;

verus! {

/// Association of string keys to string values with last-write-wins
/// insertion, used for query and path parameters.  The abstraction is a
/// `Map` over character sequences.
#[derive(Debug, Clone, PartialEq, Eq)]
pub struct StringMap {
    entries: Vec<(String, String)>,
}

/// The map denoted by a sequence of key/value pairs, later pairs winning.
pub open spec fn map_of(s: Seq<(Seq<char>, Seq<char>)>) -> Map<Seq<char>, Seq<char>>
    decreases s.len(),
{
    if s.len() == 0 {
        Map::empty()
    } else {
        map_of(s.drop_last()).insert(s.last().0, s.last().1)
    }
}

pub open spec fn unique_keys(s: Seq<(Seq<char>, Seq<char>)>) -> bool {
    forall|i: int, j: int| 0 <= i < j < s.len() ==> (#[trigger] s[i]).0 != (#[trigger] s[j]).0
}

pub proof fn lemma_map_of_props(s: Seq<(Seq<char>, Seq<char>)>)
    ensures
        forall|k: Seq<char>| #[trigger] map_of(s).contains_key(k) <==> exists|i: int|
            0 <= i < s.len() && (#[trigger] s[i]).0 == k,
        unique_keys(s) ==> forall|i: int|
            0 <= i < s.len() ==> map_of(s).contains_key((#[trigger] s[i]).0) && map_of(s)[s[i].0]
                == s[i].1,
    decreases s.len(),
{
    if s.len() > 0 {
        let t = s.drop_last();
        lemma_map_of_props(t);
        assert forall|k: Seq<char>| #[trigger] map_of(s).contains_key(k) implies exists|i: int|
            0 <= i < s.len() && (#[trigger] s[i]).0 == k by {
            if k == s.last().0 {
                assert((s[s.len() - 1]).0 == k);
            } else {
                assert(map_of(t).contains_key(k));
            }
        }
        assert forall|i: int| 0 <= i < s.len() implies map_of(s).contains_key(
            (#[trigger] s[i]).0,
        ) by {
            if i == s.len() - 1 {
            } else {
                assert(0 <= i < t.len() && (t[i]).0 == s[i].0);
                assert(map_of(t).contains_key((t[i]).0));
            }
        }
        if unique_keys(s) {
            assert(unique_keys(t));
            assert forall|i: int| 0 <= i < s.len() implies map_of(s)[(#[trigger] s[i]).0]
                == s[i].1 by {
                if i == s.len() - 1 {
                } else {
                    assert(t[i] == s[i]);
                    assert(map_of(t)[s[i].0] == s[i].1);
                    assert(s[i].0 != s.last().0);
                }
            }
        }
    }
}

impl StringMap {
    /// Pairs as the mathematical sequences they denote, in storage order.
    pub closed spec fn kv(self) -> Seq<(Seq<char>, Seq<char>)> {
        self.entries@.map_values(|p: (String, String)| (p.0@, p.1@))
    }

    /// Well-formedness: constructors establish it and methods preserve it.
    pub closed spec fn wf(self) -> bool {
        unique_keys(self.kv())
    }

    pub closed spec fn view(self) -> Map<Seq<char>, Seq<char>> {
        map_of(self.kv())
    }

    pub fn new() -> (r: StringMap)
        ensures
            r.wf(),
            r@ == Map::<Seq<char>, Seq<char>>::empty(),
    {
        StringMap { entries: Vec::new() }
    }

    /// Binds `key` to `value`, replacing any earlier binding of the key.
    pub fn insert(&mut self, key: String, value: String)
        requires
            old(self).wf(),
        ensures
            final(self).wf(),
            final(self)@ == old(self)@.insert(key@, value@),
    {
        let ghost old_kv = self.kv();
        let mut i: usize = 0;
        let n = self.entries.len();
        while i < n
            invariant
                self == old(self),
                old(self).wf(),
                old_kv == old(self).kv(),
                n == self.entries@.len(),
                0 <= i <= n,
                forall|j: int| 0 <= j < i ==> (#[trigger] self.entries@[j]).0@ != key@,
            decreases n - i,
        {
            if crate::text::chars_eq_str(
                crate::text::str_to_chars(self.entries[i].0.as_str()).as_slice(),
                key.as_str(),
            ) {
                self.entries.remove(i);
                self.entries.push((key, value));
                proof {
                    self.lemma_replace_ok(old_kv, i as int);
                }
                return ;
            }
            i += 1;
        }
        self.entries.push((key, value));
        proof {
            assert(self.kv() =~= old_kv.push((key@, value@)));
            assert(self.kv().drop_last() =~= old_kv);
            assert(unique_keys(self.kv()));
            assert(self@ == old(self)@.insert(key@, value@));
        }
    }

    proof fn lemma_replace_ok(&self, old_kv: Seq<(Seq<char>, Seq<char>)>, i: int)
        requires
            unique_keys(old_kv),
            0 <= i < old_kv.len(),
            self.kv().len() == old_kv.len(),
            self.kv() =~= old_kv.remove(i).push((self.kv().last().0, self.kv().last().1)),
            old_kv[i].0 == self.kv().last().0,
        ensures
            unique_keys(self.kv()),
            map_of(self.kv()) == map_of(old_kv).insert(self.kv().last().0, self.kv().last().1),
    {
        let k = self.kv().last().0;
        let v = self.kv().last().1;
        let removed = old_kv.remove(i);
        assert(unique_keys(removed)) by {
            assert forall|a: int, b: int| 0 <= a < b < removed.len() implies (
            #[trigger] removed[a]).0 != (#[trigger] removed[b]).0 by {
                let a0 = if a < i {
                    a
                } else {
                    a + 1
                };
                let b0 = if b < i {
                    b
                } else {
                    b + 1
                };
                assert(removed[a] == old_kv[a0]);
                assert(removed[b] == old_kv[b0]);
            }
        }
        assert(forall|j: int| 0 <= j < removed.len() ==> (#[trigger] removed[j]).0 != k) by {
            assert forall|j: int| 0 <= j < removed.len() implies (#[trigger] removed[j]).0 != k by {
                let j0 = if j < i {
                    j
                } else {
                    j + 1
                };
                assert(removed[j] == old_kv[j0]);
                if j0 != i {
                    assert(old_kv[j0].0 != old_kv[i].0);
                }
            }
        }
        assert(unique_keys(self.kv())) by {
            let s = self.kv();
            assert forall|a: int, b: int| 0 <= a < b < s.len() implies (#[trigger] s[a]).0 != (
            #[trigger] s[b]).0 by {
                if b == s.len() - 1 {
                    assert(s[a] == removed[a]);
                } else {
                    assert(s[a] == removed[a]);
                    assert(s[b] == removed[b]);
                }
            }
        }
        lemma_map_of_props(old_kv);
        lemma_map_of_props(removed);
        lemma_map_of_props(self.kv());
        assert(self.kv().drop_last() =~= removed);
        assert(map_of(self.kv()) == map_of(removed).insert(k, v));
        assert(map_of(removed).insert(k, v) =~= map_of(old_kv).insert(k, v)) by {
            assert forall|k2: Seq<char>|
                map_of(removed).insert(k, v).contains_key(k2) == map_of(old_kv).insert(
                    k,
                    v,
                ).contains_key(k2) by {
                if k2 != k {
                    if map_of(removed).contains_key(k2) {
                        let j = choose|j: int|
                            0 <= j < removed.len() && (#[trigger] removed[j]).0 == k2;
                        let j0 = if j < i {
                            j
                        } else {
                            j + 1
                        };
                        assert(old_kv[j0].0 == k2);
                    }
                    if map_of(old_kv).contains_key(k2) {
                        let j = choose|j: int|
                            0 <= j < old_kv.len() && (#[trigger] old_kv[j]).0 == k2;
                        if j != i {
                            let j0 = if j < i {
                                j
                            } else {
                                j - 1
                            };
                            assert(removed[j0].0 == k2);
                        }
                    }
                }
            }
            assert forall|k2: Seq<char>|
                #[trigger] map_of(removed).insert(k, v).contains_key(k2) && map_of(old_kv).insert(
                    k,
                    v,
                ).contains_key(k2) implies map_of(removed).insert(k, v)[k2] == map_of(
                old_kv,
            ).insert(k, v)[k2] by {
                if k2 != k {
                    let j = choose|j: int| 0 <= j < removed.len() && (#[trigger] removed[j]).0
                        == k2;
                    let j0 = if j < i {
                        j
                    } else {
                        j + 1
                    };
                    assert(old_kv[j0].0 == k2);
                    assert(map_of(removed)[k2] == removed[j].1);
                    assert(map_of(old_kv)[k2] == old_kv[j0].1);
                }
            }
        }
    }

    /// Looks the key up; mirrors `Map` lookup in the abstraction.
    pub fn get(&self, key: &str) -> (r: Option<&String>)
        requires
            self.wf(),
        ensures
            match r {
                Some(v) => self@.contains_key(key@) && v@ == self@[key@],
                None => !self@.contains_key(key@),
            },
    {
        let n = self.entries.len();
        let mut i: usize = 0;
        while i < n
            invariant
                self.wf(),
                n == self.entries@.len(),
                0 <= i <= n,
                forall|j: int| 0 <= j < i ==> (#[trigger] self.kv()[j]).0 != key@,
            decreases n - i,
        {
            if crate::text::chars_eq_str(
                crate::text::str_to_chars(self.entries[i].0.as_str()).as_slice(),
                key,
            ) {
                proof {
                    lemma_map_of_props(self.kv());
                    assert(self.kv()[i as int].0 == key@);
                    assert(self.kv()[i as int].1 == self.entries@[i as int].1@);
                }
                return Some(&self.entries[i].1);
            }
            i += 1;
        }
        proof {
            lemma_map_of_props(self.kv());
        }
        None
    }

    /// Number of bound keys.
    pub fn len(&self) -> (r: usize)
        requires
            self.wf(),
        ensures
            r == self@.dom().len(),
    {
        proof {
            self.lemma_len();
        }
        self.entries.len()
    }

    /// A copy with the same contents; spelled out so that the abstraction
    /// carries over to the copy.
    pub fn duplicate(&self) -> (r: StringMap)
        requires
            self.wf(),
        ensures
            r.wf(),
            r@ == self@,
    {
        let n = self.entries.len();
        let mut es: Vec<(String, String)> = Vec::new();
        let mut i: usize = 0;
        while i < n
            invariant
                n == self.entries@.len(),
                0 <= i <= n,
                es@.len() == i,
                forall|j: int|
                    0 <= j < i ==> (#[trigger] es@[j]).0@ == self.entries@[j].0@ && es@[j].1@
                        == self.entries@[j].1@,
            decreases n - i,
        {
            es.push((self.entries[i].0.clone(), self.entries[i].1.clone()));
            i += 1;
        }
        let r = StringMap { entries: es };
        proof {
            assert(r.kv() =~= self.kv());
        }
        r
    }

    proof fn lemma_len(&self)
        requires
            self.wf(),
        ensures
            self@.dom().len() == self.kv().len(),
    {
        lemma_len_of(self.kv());
    }
}

proof fn lemma_len_of(s: Seq<(Seq<char>, Seq<char>)>)
    requires
        unique_keys(s),
    ensures
        map_of(s).dom().finite(),
        map_of(s).dom().len() == s.len(),
    decreases s.len(),
{
    if s.len() == 0 {
    } else {
        let t = s.drop_last();
        assert(unique_keys(t));
        lemma_len_of(t);
        lemma_map_of_props(t);
        assert(!map_of(t).contains_key(s.last().0)) by {
            if map_of(t).contains_key(s.last().0) {
                let j = choose|j: int| 0 <= j < t.len() && (#[trigger] t[j]).0 == s.last().0;
                assert(s[j].0 == s.last().0);
            }
        }
        assert(map_of(s).dom() =~= map_of(t).dom().insert(s.last().0));
    }
}

} // verus!
