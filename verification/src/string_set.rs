//! A set of strings that keeps its members in listing order, so that what is
//! read out of it never depends on the order in which they were put in.

use crate::text::{
    compare, lemma_lex_less_asymmetric, lemma_lex_less_irreflexive, lemma_lex_less_total,
    lemma_lex_less_transitive, lex_less, Relation,
};
use vstd::prelude::*;

verus! {

/// The character sequences that a sequence of strings stands for.
pub open spec fn texts(v: Seq<String>) -> Seq<Seq<char>> {
    Seq::new(v.len(), |i: int| v[i]@)
}

/// Every entry comes before all later ones; in particular none occurs twice.
pub open spec fn strictly_ascending(s: Seq<Seq<char>>) -> bool {
    forall|i: int, j: int| 0 <= i < j < s.len() ==> lex_less(s[i], s[j])
}

/// `v` lists the members of `s`, each once, in ascending order.
pub open spec fn lists_exactly(v: Seq<String>, s: Set<Seq<char>>) -> bool {
    strictly_ascending(texts(v)) && texts(v).to_set() == s
}

/// A set has at most one ascending listing.
pub proof fn lemma_listing_unique(a: Seq<Seq<char>>, b: Seq<Seq<char>>)
    requires
        strictly_ascending(a),
        strictly_ascending(b),
        a.to_set() == b.to_set(),
    ensures
        a == b,
    decreases a.len(),
{
    if a.len() == 0 || b.len() == 0 {
        if a.len() > 0 {
            assert(a.contains(a[0]));
            assert(b.to_set().contains(a[0]));
        }
        if b.len() > 0 {
            assert(b.contains(b[0]));
            assert(a.to_set().contains(b[0]));
        }
        assert(a =~= b);
    } else {
        let x = a.last();
        let y = b.last();
        assert(a.contains(x));
        assert(b.to_set().contains(x));
        let j = choose|j: int| 0 <= j < b.len() && b[j] == x;
        assert(b.contains(y));
        assert(a.to_set().contains(y));
        let i = choose|i: int| 0 <= i < a.len() && a[i] == y;
        if x != y {
            assert(lex_less(b[j], b[b.len() - 1]));
            assert(lex_less(a[i], a[a.len() - 1]));
            lemma_lex_less_asymmetric(x, y);
        }
        let a1 = a.drop_last();
        let b1 = b.drop_last();
        assert forall|k: Seq<char>| a1.to_set().contains(k) == b1.to_set().contains(k) by {
            lemma_lex_less_irreflexive(x);
            if a1.contains(k) {
                let m = choose|m: int| 0 <= m < a1.len() && a1[m] == k;
                assert(lex_less(a[m], a[a.len() - 1]));
                assert(a.contains(k));
                assert(b.to_set().contains(k));
                let n = choose|n: int| 0 <= n < b.len() && b[n] == k;
                assert(b1[n] == k);
            }
            if b1.contains(k) {
                let m = choose|m: int| 0 <= m < b1.len() && b1[m] == k;
                assert(lex_less(b[m], b[b.len() - 1]));
                assert(b.contains(k));
                assert(a.to_set().contains(k));
                let n = choose|n: int| 0 <= n < a.len() && a[n] == k;
                assert(a1[n] == k);
            }
        }
        assert(a1.to_set() =~= b1.to_set());
        lemma_listing_unique(a1, b1);
        assert(a =~= a1.push(x));
        assert(b =~= b1.push(y));
    }
}

/// A finite set of strings.
#[derive(Debug)]
pub struct StringSet {
    items: Vec<String>,
}

impl View for StringSet {
    type V = Set<Seq<char>>;

    closed spec fn view(&self) -> Set<Seq<char>> {
        texts(self.items@).to_set()
    }
}

impl StringSet {
    /// The members are held in ascending order.
    pub closed spec fn wf(&self) -> bool {
        strictly_ascending(texts(self.items@))
    }

    /// The empty set.
    pub fn new() -> (s: Self)
        ensures
            s.wf(),
            s@ == Set::<Seq<char>>::empty(),
    {
        let s = StringSet { items: Vec::new() };
        assert(s@ =~= Set::<Seq<char>>::empty());
        s
    }

    /// Where `key` stands among the members, or where it would have to go.
    fn position(&self, key: &str) -> (r: (usize, bool))
        requires
            self.wf(),
        ensures
            r.0 <= self.items@.len(),
            r.1 ==> r.0 < self.items@.len() && self.items@[r.0 as int]@ == key@,
            !r.1 ==> forall|i: int| 0 <= i < r.0 ==> lex_less(#[trigger] self.items@[i]@, key@),
            !r.1 ==> forall|i: int|
                r.0 <= i < self.items@.len() ==> lex_less(key@, #[trigger] self.items@[i]@),
    {
        let mut lo: usize = 0;
        let mut hi: usize = self.items.len();
        while lo < hi
            invariant
                self.wf(),
                lo <= hi <= self.items@.len(),
                forall|i: int| 0 <= i < lo ==> lex_less(#[trigger] self.items@[i]@, key@),
                forall|i: int|
                    hi <= i < self.items@.len() ==> lex_less(key@, #[trigger] self.items@[i]@),
            decreases hi - lo,
        {
            let mid: usize = lo + (hi - lo) / 2;
            let ghost pivot = self.items@[mid as int]@;
            match compare(self.items[mid].as_str(), key) {
                Relation::Same => {
                    return (mid, true);
                },
                Relation::Before => {
                    assert forall|i: int| 0 <= i < mid + 1 implies lex_less(
                        #[trigger] self.items@[i]@,
                        key@,
                    ) by {
                        if i < mid {
                            assert(lex_less(texts(self.items@)[i], texts(self.items@)[mid as int]));
                            lemma_lex_less_transitive(self.items@[i]@, pivot, key@);
                        }
                    }
                    lo = mid + 1;
                },
                Relation::After => {
                    proof {
                        lemma_lex_less_total(pivot, key@);
                    }
                    assert forall|i: int| mid <= i < self.items@.len() implies lex_less(
                        key@,
                        #[trigger] self.items@[i]@,
                    ) by {
                        if mid < i {
                            assert(lex_less(texts(self.items@)[mid as int], texts(self.items@)[i]));
                            lemma_lex_less_transitive(key@, pivot, self.items@[i]@);
                        }
                    }
                    hi = mid;
                },
            }
        }
        (lo, false)
    }

    /// Whether `key` is a member.
    pub fn contains(&self, key: &str) -> (r: bool)
        requires
            self.wf(),
        ensures
            r == self@.contains(key@),
    {
        let (at, found) = self.position(key);
        proof {
            let listed = texts(self.items@);
            if found {
                assert(listed[at as int] == key@);
            } else {
                lemma_lex_less_irreflexive(key@);
                assert forall|i: int| 0 <= i < listed.len() implies listed[i] != key@ by {
                    assert(lex_less(self.items@[i]@, key@) || lex_less(key@, self.items@[i]@));
                }
            }
        }
        found
    }

    /// Adds `key`; says whether it was new.
    pub fn insert(&mut self, key: String) -> (fresh: bool)
        requires
            old(self).wf(),
        ensures
            final(self).wf(),
            final(self)@ == old(self)@.insert(key@),
            fresh == !old(self)@.contains(key@),
    {
        let (at, found) = self.position(key.as_str());
        let ghost before = texts(self.items@);
        if found {
            proof {
                assert(before[at as int] == key@);
                assert(self@ =~= self@.insert(key@));
            }
            return false;
        }
        proof {
            lemma_lex_less_irreflexive(key@);
            assert forall|i: int| 0 <= i < before.len() implies before[i] != key@ by {
                assert(lex_less(self.items@[i]@, key@) || lex_less(key@, self.items@[i]@));
            }
        }
        self.items.insert(at, key);
        proof {
            let after = texts(self.items@);
            assert(after =~= before.insert(at as int, key@));
            assert forall|i: int, j: int| 0 <= i < j < after.len() implies lex_less(
                after[i],
                after[j],
            ) by {
                let i0 = if i < at { i } else { i - 1 };
                let j0 = if j < at { j } else { j - 1 };
                if i == at {
                    assert(lex_less(key@, old(self).items@[j0]@));
                } else if j == at {
                    assert(lex_less(old(self).items@[i0]@, key@));
                } else {
                    assert(lex_less(before[i0], before[j0]));
                }
            }
            assert forall|k: Seq<char>| after.to_set().contains(k) == before.to_set().insert(
                key@,
            ).contains(k) by {
                if after.contains(k) {
                    let i = choose|i: int| 0 <= i < after.len() && after[i] == k;
                    if i != at {
                        let i0 = if i < at { i } else { i - 1 };
                        assert(before[i0] == k);
                    }
                }
                if before.contains(k) {
                    let i = choose|i: int| 0 <= i < before.len() && before[i] == k;
                    let i1 = if i < at { i } else { i + 1 };
                    assert(after[i1] == k);
                }
                if k == key@ {
                    assert(after[at as int] == k);
                }
            }
            assert(self@ =~= old(self)@.insert(key@));
        }
        true
    }

    /// The members, each once, in ascending order.
    pub fn entries(&self) -> (v: &Vec<String>)
        requires
            self.wf(),
        ensures
            lists_exactly(v@, self@),
    {
        &self.items
    }
}

} // verus!
