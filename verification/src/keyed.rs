//! A registry of named entries kept in name order, with at most one entry per name.
use vstd::prelude::*;
use crate::text::{chars_less, chars_less_exec, chars_eq, chars_of, lemma_chars_less_irreflexive,
    lemma_chars_less_total, lemma_chars_less_transitive};

verus! {

/// An entry that is registered under a name.
pub trait Keyed {
    /// The entry's name.
    spec fn key_of(&self) -> Seq<char>;

    /// The entry's name.
    fn key(&self) -> (k: &String)
        ensures
            k@ == self.key_of();
}

/// The entries of `s` are in strictly increasing name order (so no name occurs twice).
pub open spec fn sorted_keys<T: Keyed>(s: Seq<T>) -> bool {
    forall|i: int, j: int|
        0 <= i < j < s.len() ==> chars_less(#[trigger] s[i].key_of(), #[trigger] s[j].key_of())
}

/// Some entry of `s` has name `k`.
pub open spec fn holds_key<T: Keyed>(s: Seq<T>, k: Seq<char>) -> bool {
    exists|i: int| 0 <= i < s.len() && #[trigger] s[i].key_of() == k
}

/// A position of `s` whose entry has name `k`, when there is one.
pub open spec fn key_index<T: Keyed>(s: Seq<T>, k: Seq<char>) -> int {
    choose|i: int| 0 <= i < s.len() && #[trigger] s[i].key_of() == k
}

/// The entries of `s` by name.
pub open spec fn keyed_map<T: Keyed>(s: Seq<T>) -> Map<Seq<char>, T> {
    Map::new(|k: Seq<char>| holds_key(s, k), |k: Seq<char>| s[key_index(s, k)])
}

/// In a name-ordered sequence, entry `i` is the one the map gives for its name.
pub proof fn lemma_keyed_map_at<T: Keyed>(s: Seq<T>, i: int)
    requires
        sorted_keys(s),
        0 <= i < s.len(),
    ensures
        keyed_map(s).dom().contains(s[i].key_of()),
        keyed_map(s)[s[i].key_of()] == s[i],
{
    let k = s[i].key_of();
    assert(holds_key(s, k));
    let j = key_index(s, k);
    if j < i {
        assert(chars_less(s[j].key_of(), s[i].key_of()));
        lemma_chars_less_irreflexive(k);
    } else if i < j {
        assert(chars_less(s[i].key_of(), s[j].key_of()));
        lemma_chars_less_irreflexive(k);
    }
}

/// Every entry of the map is filed under its own name.
pub proof fn lemma_keyed_map_keys<T: Keyed>(s: Seq<T>)
    ensures
        forall|k: Seq<char>| #[trigger] keyed_map(s).dom().contains(k) ==> keyed_map(s)[k].key_of()
            == k,
{
    assert forall|k: Seq<char>| #[trigger] keyed_map(s).dom().contains(k) implies keyed_map(
        s,
    )[k].key_of() == k by {
        assert(holds_key(s, k));
    }
}

/// `s` lists the entries of `m` in increasing name order: each listed entry is the one
/// `m` files under its name, and every name of `m` is listed.
pub open spec fn lists_in_order<T: Keyed>(s: Seq<T>, m: Map<Seq<char>, T>) -> bool {
    &&& sorted_keys(s)
    &&& forall|i: int| 0 <= i < s.len() ==> m.dom().contains(#[trigger] s[i].key_of()) && m[s[i].key_of()]
        == s[i]
    &&& forall|k: Seq<char>| #[trigger] m.dom().contains(k) ==> exists|i: int| 0 <= i < s.len() && s[i].key_of() == k
}

/// Two listings in name order of the same entries agree on their first `n` entries.
proof fn lemma_listings_agree<T: Keyed>(a: Seq<T>, b: Seq<T>, m: Map<Seq<char>, T>, n: int)
    requires
        lists_in_order(a, m),
        lists_in_order(b, m),
        0 <= n <= a.len(),
        n <= b.len(),
    ensures
        forall|i: int| 0 <= i < n ==> a[i] == b[i],
    decreases n,
{
    if n > 0 {
        lemma_listings_agree(a, b, m, n - 1);
        let i = n - 1;
        let ka = a[i].key_of();
        let kb = b[i].key_of();
        if ka != kb {
            lemma_chars_less_total(ka, kb);
            if chars_less(ka, kb) {
                assert(m.dom().contains(ka));
                let j = choose|j: int| 0 <= j < b.len() && b[j].key_of() == ka;
                if j < i {
                    assert(a[j] == b[j]);
                    assert(chars_less(a[j].key_of(), a[i].key_of()));
                    lemma_chars_less_irreflexive(ka);
                } else {
                    assert(chars_less(b[i].key_of(), b[j].key_of()));
                    lemma_chars_less_transitive(ka, kb, ka);
                    lemma_chars_less_irreflexive(ka);
                }
            } else {
                assert(m.dom().contains(kb));
                let j = choose|j: int| 0 <= j < a.len() && a[j].key_of() == kb;
                if j < i {
                    assert(a[j] == b[j]);
                    assert(chars_less(b[j].key_of(), b[i].key_of()));
                    lemma_chars_less_irreflexive(kb);
                } else {
                    assert(chars_less(a[i].key_of(), a[j].key_of()));
                    lemma_chars_less_transitive(kb, ka, kb);
                    lemma_chars_less_irreflexive(kb);
                }
            }
        }
    }
}

/// The listing in name order of a set of entries is unique: two such listings of the
/// same entries are equal.
pub proof fn law_listing_is_determined<T: Keyed>(a: Seq<T>, b: Seq<T>, m: Map<Seq<char>, T>)
    requires
        lists_in_order(a, m),
        lists_in_order(b, m),
    ensures
        a == b,
{
    let n = if a.len() <= b.len() {
        a.len() as int
    } else {
        b.len() as int
    };
    lemma_listings_agree(a, b, m, n);
    if a.len() > b.len() {
        let i = b.len() as int;
        assert(m.dom().contains(a[i].key_of()));
        let j = choose|j: int| 0 <= j < b.len() && b[j].key_of() == a[i].key_of();
        assert(a[j] == b[j]);
        assert(chars_less(a[j].key_of(), a[i].key_of()));
        lemma_chars_less_irreflexive(a[i].key_of());
    } else if b.len() > a.len() {
        let i = a.len() as int;
        assert(m.dom().contains(b[i].key_of()));
        let j = choose|j: int| 0 <= j < a.len() && a[j].key_of() == b[i].key_of();
        assert(a[j] == b[j]);
        assert(chars_less(b[j].key_of(), b[i].key_of()));
        lemma_chars_less_irreflexive(b[i].key_of());
    }
    assert(a =~= b);
}

/// A registry of entries, kept in strictly increasing name order.
#[derive(Clone)]
pub struct Registry<T> {
    items: Vec<T>,
}

impl<T: Keyed> View for Registry<T> {
    type V = Map<Seq<char>, T>;

    /// The registered entries by name.
    open spec fn view(&self) -> Map<Seq<char>, T> {
        keyed_map(self.entries())
    }
}

impl<T: Keyed> Registry<T> {
    /// The entries in name order.
    pub closed spec fn entries(&self) -> Seq<T> {
        self.items@
    }

    /// The entries are kept in strictly increasing name order.
    pub open spec fn wf(&self) -> bool {
        sorted_keys(self.entries())
    }

    /// The empty registry.
    pub fn new() -> (r: Self)
        ensures
            r.wf(),
            r@ == Map::<Seq<char>, T>::empty(),
    {
        let r = Registry { items: Vec::new() };
        assert(r@ =~= Map::<Seq<char>, T>::empty());
        r
    }

    /// The first position whose name is not below `key`, and whether it holds `key`.
    fn locate(&self, key: &Vec<char>) -> (r: (bool, usize))
        requires
            self.wf(),
        ensures
            r.1 <= self.entries().len(),
            forall|i: int| 0 <= i < r.1 ==> chars_less(#[trigger] self.entries()[i].key_of(), key@),
            r.1 < self.entries().len() ==> !chars_less(self.entries()[r.1 as int].key_of(), key@),
            r.0 == (r.1 < self.entries().len() && self.entries()[r.1 as int].key_of() == key@),
            r.0 == holds_key(self.entries(), key@),
    {
        let mut i: usize = 0;
        let mut stop = false;
        while i < self.items.len() && !stop
            invariant
                i <= self.items@.len(),
                forall|m: int| 0 <= m < i ==> chars_less(#[trigger] self.items@[m].key_of(), key@),
                stop ==> i < self.items@.len() && !chars_less(self.items@[i as int].key_of(), key@),
            decreases (self.items@.len() - i) + (if stop {
                0int
            } else {
                1int
            }),
        {
            let k = chars_of(self.items[i].key().as_str());
            if !chars_less_exec(&k, key) {
                stop = true;
            } else {
                i += 1;
            }
        }
        let found = if i < self.items.len() {
            let k = chars_of(self.items[i].key().as_str());
            chars_eq(&k, key)
        } else {
            false
        };
        proof {
            let s = self.items@;
            if holds_key(s, key@) {
                let j = choose|j: int| 0 <= j < s.len() && #[trigger] s[j].key_of() == key@;
                if j < i {
                    lemma_chars_less_irreflexive(key@);
                } else if j > i {
                    assert(chars_less(s[i as int].key_of(), s[j].key_of()));
                }
            }
            if found {
                assert(s[i as int].key_of() == key@);
            }
        }
        (found, i)
    }

    /// Adds `entry` under its name, unless that name is taken: then the registry is
    /// unchanged and the entry is handed back.
    pub fn register(&mut self, entry: T) -> (r: Result<(), T>)
        requires
            old(self).wf(),
        ensures
            final(self).wf(),
            old(self)@.dom().contains(entry.key_of()) ==> r == Err::<(), T>(entry) && final(self)@
                == old(self)@,
            !old(self)@.dom().contains(entry.key_of()) ==> r is Ok && final(self)@ == old(
                self,
            )@.insert(entry.key_of(), entry),
    {
        let key = chars_of(entry.key().as_str());
        let (found, pos) = self.locate(&key);
        if found {
            return Err(entry);
        }
        let ghost s = self.items@;
        let ghost k = key@;
        self.items.insert(pos, entry);
        proof {
            let t = self.items@;
            assert(t =~= s.insert(pos as int, entry));
            assert forall|i: int, j: int| 0 <= i < j < t.len() implies chars_less(
                #[trigger] t[i].key_of(),
                #[trigger] t[j].key_of(),
            ) by {
                if j < pos {
                } else if j == pos {
                    assert(t[i] == s[i]);
                } else if i > pos {
                    assert(t[i] == s[i - 1] && t[j] == s[j - 1]);
                } else {
                    lemma_chars_less_total(s[pos as int].key_of(), k);
                    if i == pos {
                        if j - 1 > pos {
                            lemma_chars_less_transitive(k, s[pos as int].key_of(), s[j - 1].key_of());
                        }
                    } else {
                        lemma_chars_less_transitive(s[i].key_of(), k, s[pos as int].key_of());
                        if j - 1 > pos {
                            lemma_chars_less_transitive(
                                s[i].key_of(),
                                s[pos as int].key_of(),
                                s[j - 1].key_of(),
                            );
                        }
                    }
                }
            }
            assert forall|q: Seq<char>| #![auto] keyed_map(t).dom().contains(q) == keyed_map(
                s,
            ).insert(k, entry).dom().contains(q) by {
                if holds_key(t, q) {
                    let j = choose|j: int| 0 <= j < t.len() && #[trigger] t[j].key_of() == q;
                    if j < pos {
                        assert(s[j].key_of() == q);
                    } else if j > pos {
                        assert(s[j - 1].key_of() == q);
                    }
                }
                if holds_key(s, q) {
                    let j = choose|j: int| 0 <= j < s.len() && #[trigger] s[j].key_of() == q;
                    if j < pos {
                        assert(t[j].key_of() == q);
                    } else {
                        assert(t[j + 1].key_of() == q);
                    }
                }
                if q == k {
                    assert(t[pos as int].key_of() == q);
                }
            }
            assert forall|q: Seq<char>| #[trigger] keyed_map(t).dom().contains(q) implies keyed_map(
                t,
            )[q] == keyed_map(s).insert(k, entry)[q] by {
                let j = choose|j: int| 0 <= j < t.len() && #[trigger] t[j].key_of() == q;
                lemma_keyed_map_at(t, j);
                if j < pos {
                    lemma_keyed_map_at(s, j);
                    assert(s[j] == t[j]);
                } else if j > pos {
                    lemma_keyed_map_at(s, j - 1);
                    assert(s[j - 1] == t[j]);
                }
            }
            assert(keyed_map(t) =~= keyed_map(s).insert(k, entry));
        }
        Ok(())
    }

    /// Removes and returns the entry named `key`, if there is one.
    pub fn unregister(&mut self, key: &str) -> (r: Option<T>)
        requires
            old(self).wf(),
        ensures
            final(self).wf(),
            final(self)@ == old(self)@.remove(key@),
            r == (if old(self)@.dom().contains(key@) {
                Some(old(self)@[key@])
            } else {
                None
            }),
    {
        let k = chars_of(key);
        let (found, pos) = self.locate(&k);
        if !found {
            assert(self@ =~= self@.remove(key@));
            return None;
        }
        let ghost s = self.items@;
        proof {
            lemma_keyed_map_at(s, pos as int);
        }
        let e = self.items.remove(pos);
        proof {
            let t = self.items@;
            assert(t =~= s.remove(pos as int));
            assert forall|i: int, j: int| 0 <= i < j < t.len() implies chars_less(
                #[trigger] t[i].key_of(),
                #[trigger] t[j].key_of(),
            ) by {
                if j < pos {
                } else if i >= pos {
                    assert(t[i] == s[i + 1] && t[j] == s[j + 1]);
                } else {
                    assert(t[i] == s[i] && t[j] == s[j + 1]);
                }
            }
            assert forall|q: Seq<char>| #![auto] keyed_map(t).dom().contains(q) == keyed_map(
                s,
            ).remove(key@).dom().contains(q) by {
                if holds_key(t, q) {
                    let j = choose|j: int| 0 <= j < t.len() && #[trigger] t[j].key_of() == q;
                    if j < pos {
                        assert(s[j].key_of() == q);
                        assert(chars_less(s[j].key_of(), s[pos as int].key_of()));
                        lemma_chars_less_irreflexive(q);
                    } else {
                        assert(s[j + 1].key_of() == q);
                        assert(chars_less(s[pos as int].key_of(), s[j + 1].key_of()));
                        lemma_chars_less_irreflexive(q);
                    }
                }
                if holds_key(s, q) && q != key@ {
                    let j = choose|j: int| 0 <= j < s.len() && #[trigger] s[j].key_of() == q;
                    if j < pos {
                        assert(t[j].key_of() == q);
                    } else if j > pos {
                        assert(t[j - 1].key_of() == q);
                    }
                }
            }
            assert forall|q: Seq<char>| #[trigger] keyed_map(t).dom().contains(q) implies keyed_map(
                t,
            )[q] == keyed_map(s).remove(key@)[q] by {
                let j = choose|j: int| 0 <= j < t.len() && #[trigger] t[j].key_of() == q;
                lemma_keyed_map_at(t, j);
                if j < pos {
                    lemma_keyed_map_at(s, j);
                    assert(s[j] == t[j]);
                } else {
                    lemma_keyed_map_at(s, j + 1);
                    assert(s[j + 1] == t[j]);
                }
            }
            assert(keyed_map(t) =~= keyed_map(s).remove(key@));
        }
        Some(e)
    }

    /// The entry named `key`, if there is one.
    pub fn get(&self, key: &str) -> (r: Option<&T>)
        requires
            self.wf(),
        ensures
            r == (if self@.dom().contains(key@) {
                Some(&self@[key@])
            } else {
                None
            }),
            r matches Some(e) ==> e.key_of() == key@,
    {
        proof {
            lemma_keyed_map_keys(self.items@);
        }
        let k = chars_of(key);
        let (found, pos) = self.locate(&k);
        if found {
            proof {
                lemma_keyed_map_at(self.items@, pos as int);
            }
            Some(&self.items[pos])
        } else {
            None
        }
    }

    /// All entries, in increasing name order.
    pub fn list(&self) -> (r: Vec<&T>)
        requires
            self.wf(),
        ensures
            sorted_keys(r@.map_values(|e: &T| *e)),
            forall|i: int| 0 <= i < r@.len() ==> self@.dom().contains(#[trigger] r@[i].key_of())
                && self@[r@[i].key_of()] == *r@[i],
            forall|k: Seq<char>| #[trigger] self@.dom().contains(k) ==> exists|i: int|
                0 <= i < r@.len() && r@[i].key_of() == k,
            lists_in_order(r@.map_values(|e: &T| *e), self@),
    {
        let mut r: Vec<&T> = Vec::new();
        let mut i: usize = 0;
        while i < self.items.len()
            invariant
                i <= self.items@.len(),
                r@.len() == i,
                forall|m: int| 0 <= m < i ==> *r@[m] == self.items@[m],
            decreases self.items.len() - i,
        {
            r.push(&self.items[i]);
            i += 1;
        }
        proof {
            let s = self.items@;
            assert(r@.map_values(|e: &T| *e) =~= s);
            assert forall|m: int| 0 <= m < r@.len() implies self@.dom().contains(
                #[trigger] r@[m].key_of(),
            ) && self@[r@[m].key_of()] == *r@[m] by {
                lemma_keyed_map_at(s, m);
            }
            assert forall|k: Seq<char>| #[trigger] self@.dom().contains(k) implies exists|m: int|
                0 <= m < r@.len() && r@[m].key_of() == k by {
                let j = choose|j: int| 0 <= j < s.len() && #[trigger] s[j].key_of() == k;
                assert(r@[j].key_of() == k);
            }
            assert forall|k: Seq<char>| #[trigger] self@.dom().contains(k) implies exists|m: int|
                0 <= m < s.len() && s[m].key_of() == k by {
                let j = choose|j: int| 0 <= j < s.len() && #[trigger] s[j].key_of() == k;
            }
            assert forall|m: int| 0 <= m < s.len() implies self@.dom().contains(#[trigger] s[m].key_of())
                && self@[s[m].key_of()] == s[m] by {
                lemma_keyed_map_at(s, m);
            }
        }
        r
    }
}

} // verus!
