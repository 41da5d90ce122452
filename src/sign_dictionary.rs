use vstd::prelude::*;

use crate::bit_string::BitIndexError;
use crate::decimal::{decimal, decimal_string, lemma_decimal_injective, lemma_decimal_nonempty};
use crate::name_order::{
    lemma_name_lt_irreflexive, lemma_name_lt_total, lemma_name_lt_transitive, name_less, name_lt,
};
use crate::sign::{feature_set, Sign, FEATURE_COUNT};

verus! {

/// Prefix of the names the dictionary proposes for new signs.
pub const NEW_SIGN_NAME: &'static str = "New Sign ";

/// The `k`-th name proposed for a new sign: the bare prefix, then the
/// prefix followed by 1, 2, 3, ...
pub open spec fn candidate_name(k: nat) -> Seq<char> {
    if k == 0 {
        NEW_SIGN_NAME@
    } else {
        NEW_SIGN_NAME@ + decimal(k)
    }
}

proof fn lemma_candidate_injective(a: nat, b: nat)
    requires
        candidate_name(a) == candidate_name(b),
    ensures
        a == b,
{
    reveal_strlit("New Sign ");
    lemma_decimal_nonempty(a);
    lemma_decimal_nonempty(b);
    if a > 0 && b > 0 {
        assert(candidate_name(a).skip(9) =~= decimal(a));
        assert(candidate_name(b).skip(9) =~= decimal(b));
        lemma_decimal_injective(a, b);
    } else if a > 0 || b > 0 {
        assert(candidate_name(a).len() != candidate_name(b).len());
    }
}

/// Named signs, kept in name order, each name once.
#[derive(Debug)]
pub struct SignDictionary {
    signs: Vec<(String, Sign)>,
}

/// A dictionary entry together with its position in name order.
#[derive(Debug)]
pub struct IndexedSign<'a> {
    pub index: usize,
    pub name: &'a String,
    pub sign: &'a Sign,
}

/// Names strictly increasing in name order.
pub open spec fn sorted_names(e: Seq<(Seq<char>, Sign)>) -> bool {
    forall|i: int, j: int| 0 <= i < j < e.len() ==> name_lt(#[trigger] e[i].0, #[trigger] e[j].0)
}

impl SignDictionary {
    /// The entries, in name order.
    pub closed spec fn entries(&self) -> Seq<(Seq<char>, Sign)> {
        self.signs@.map_values(|e: (String, Sign)| (e.0@, e.1))
    }

    pub open spec fn wf(&self) -> bool {
        &&& sorted_names(self.entries())
        &&& forall|i: int| 0 <= i < self.entries().len() ==> (#[trigger] self.entries()[i]).1.wf()
    }

    /// Whether the dictionary has an entry with this name.
    pub open spec fn has_name(&self, name: Seq<char>) -> bool {
        exists|i: int| 0 <= i < self.entries().len() && (#[trigger] self.entries()[i]).0 == name
    }

    pub fn new() -> (r: Self)
        ensures
            r.wf(),
            r.entries() == Seq::<(Seq<char>, Sign)>::empty(),
    {
        let r = SignDictionary { signs: Vec::new() };
        assert(r.entries() =~= Seq::<(Seq<char>, Sign)>::empty());
        r
    }

    pub fn len(&self) -> (r: usize)
        ensures
            r == self.entries().len(),
    {
        self.signs.len()
    }

    /// The entries, in name order.
    pub fn signs(&self) -> (r: &Vec<(String, Sign)>)
        ensures
            r@.map_values(|e: (String, Sign)| (e.0@, e.1)) == self.entries(),
    {
        &self.signs
    }

    /// The entry at position `index` in name order.
    pub fn get_by_index(&self, index: usize) -> (r: Option<(&String, &Sign)>)
        ensures
            index < self.entries().len() ==> (r matches Some((n, s)) && (n@, *s) == self.entries()[index as int]),
            index >= self.entries().len() ==> r is None,
    {
        if index < self.signs.len() {
            let e = &self.signs[index];
            Some((&e.0, &e.1))
        } else {
            None
        }
    }

    /// The first entry in name order whose sign equals `sign`.
    pub fn find_similar(&self, sign: &Sign) -> (r: Option<IndexedSign>)
        ensures
            r matches Some(found) ==> {
                &&& found.index < self.entries().len()
                &&& self.entries()[found.index as int] == (found.name@, *found.sign)
                &&& found.sign.spec_eq(sign)
                &&& forall|j: int| 0 <= j < found.index ==> !(#[trigger] self.entries()[j]).1.spec_eq(sign)
            },
            r is None ==> forall|j: int| 0 <= j < self.entries().len() ==> !(#[trigger] self.entries()[j]).1.spec_eq(sign),
    {
        let mut i: usize = 0;
        while i < self.signs.len()
            invariant
                i <= self.signs@.len(),
                forall|j: int| 0 <= j < i ==> !(#[trigger] self.entries()[j]).1.spec_eq(sign),
            decreases self.signs@.len() - i,
        {
            let e = &self.signs[i];
            if e.1.eq(sign) {
                return Some(IndexedSign { index: i, name: &e.0, sign: &e.1 });
            }
            i = i + 1;
        }
        None
    }

    /// Position of the first entry whose name is not before `name`.
    fn lower_bound(&self, name: &str) -> (r: usize)
        requires
            self.wf(),
        ensures
            r <= self.entries().len(),
            forall|j: int| 0 <= j < r ==> name_lt(#[trigger] self.entries()[j].0, name@),
            r < self.entries().len() ==> !name_lt(self.entries()[r as int].0, name@),
    {
        let mut i: usize = 0;
        while i < self.signs.len()
            invariant
                i <= self.signs@.len(),
                forall|j: int| 0 <= j < i ==> name_lt(#[trigger] self.entries()[j].0, name@),
            decreases self.signs@.len() - i,
        {
            if !name_less(self.signs[i].0.as_str(), name) {
                return i;
            }
            i = i + 1;
        }
        i
    }

    /// The position of the entry named `name`, if there is one.
    fn position(&self, name: &str) -> (r: Option<usize>)
        requires
            self.wf(),
        ensures
            r matches Some(p) ==> p < self.entries().len() && self.entries()[p as int].0 == name@,
            r is None ==> !self.has_name(name@),
    {
        let p = self.lower_bound(name);
        if p < self.signs.len() && !name_less(name, self.signs[p].0.as_str()) {
            proof {
                if self.entries()[p as int].0 != name@ {
                    lemma_name_lt_total(self.entries()[p as int].0, name@);
                }
            }
            return Some(p);
        }
        proof {
            assert forall|i: int| 0 <= i < self.entries().len() implies (#[trigger] self.entries()[i]).0 != name@ by {
                if i < p {
                    lemma_name_lt_irreflexive(name@);
                } else {
                    if i > p {
                        lemma_name_lt_transitive(name@, self.entries()[p as int].0, self.entries()[i].0);
                    }
                    lemma_name_lt_irreflexive(name@);
                }
            }
        }
        None
    }

    /// The sign named `name`.
    pub fn get(&self, name: &str) -> (r: Option<&Sign>)
        requires
            self.wf(),
        ensures
            r matches Some(s) ==> exists|i: int| 0 <= i < self.entries().len() && #[trigger] self.entries()[i] == (name@, *s),
            r is None ==> !self.has_name(name@),
    {
        match self.position(name) {
            Some(p) => Some(&self.signs[p].1),
            None => None,
        }
    }
    /// Adds `sign` under `name`, in name order, or replaces the sign
    /// already there and returns it.
    pub fn insert(&mut self, name: String, sign: Sign) -> (r: Option<Sign>)
        requires
            old(self).wf(),
            sign.wf(),
        ensures
            final(self).wf(),
            r matches Some(prev) ==> exists|p: int|
                0 <= p < old(self).entries().len() && (#[trigger] old(self).entries()[p]) == (name@, prev)
                    && final(self).entries() == old(self).entries().update(p, (name@, sign)),
            r is None ==> !old(self).has_name(name@) && exists|p: int|
                0 <= p <= old(self).entries().len() && #[trigger] final(self).entries() == old(
                    self,
                ).entries().insert(p, (name@, sign)),
            forall|n: Seq<char>| #[trigger]
                final(self).has_name(n) <==> (n == name@ || old(self).has_name(n)),
            exists|j: int|
                0 <= j < final(self).entries().len() && #[trigger] final(self).entries()[j] == (
                    name@,
                    sign,
                ),
    {
        let ghost e0 = self.entries();
        match self.position(name.as_str()) {
            Some(p) => {
                let ghost n = name@;
                let (_, prev) = self.signs.remove(p);
                self.signs.insert(p, (name, sign));
                proof {
                    assert(self.entries() =~= e0.update(p as int, (n, sign)));
                    assert(e0[p as int] == (n, prev));
                    assert forall|i: int, j: int| 0 <= i < j < self.entries().len() implies name_lt(
                        #[trigger] self.entries()[i].0,
                        #[trigger] self.entries()[j].0,
                    ) by {
                        assert(e0[i].0 == self.entries()[i].0);
                        assert(e0[j].0 == self.entries()[j].0);
                    }
                    assert(self.entries()[p as int] == (n, sign));
                    assert forall|m: Seq<char>| #[trigger] self.has_name(m) <==> (m == n || old(self).has_name(m)) by {
                        if self.has_name(m) {
                            let i = choose|i: int| 0 <= i < self.entries().len() && (#[trigger] self.entries()[i]).0 == m;
                            assert(e0[i].0 == self.entries()[i].0);
                        }
                        if old(self).has_name(m) {
                            let i = choose|i: int| 0 <= i < e0.len() && (#[trigger] e0[i]).0 == m;
                            assert(e0[i].0 == self.entries()[i].0);
                        }
                    }
                }
                Some(prev)
            },
            None => {
                let p = self.lower_bound(name.as_str());
                let ghost n = name@;
                self.signs.insert(p, (name, sign));
                proof {
                    let e1 = self.entries();
                    assert(e1 =~= e0.insert(p as int, (n, sign)));
                    if p < e0.len() {
                        assert(e0[p as int].0 != n);
                        lemma_name_lt_total(e0[p as int].0, n);
                    }
                    assert forall|i: int, j: int| 0 <= i < j < e1.len() implies name_lt(
                        #[trigger] e1[i].0,
                        #[trigger] e1[j].0,
                    ) by {
                        if j < p {
                        } else if j == p {
                        } else if i < p {
                            assert(e1[j] == e0[j - 1]);
                            if j - 1 > p {
                                lemma_name_lt_transitive(n, e0[p as int].0, e0[j - 1].0);
                            }
                            lemma_name_lt_transitive(e0[i].0, n, e0[j - 1].0);
                        } else if i == p {
                            assert(e1[j] == e0[j - 1]);
                            if j - 1 > p {
                                lemma_name_lt_transitive(n, e0[p as int].0, e0[j - 1].0);
                            }
                        } else {
                            assert(e1[i] == e0[i - 1]);
                            assert(e1[j] == e0[j - 1]);
                        }
                    }
                    assert(e1 == e0.insert(p as int, (n, sign)));
                    assert(e1[p as int] == (n, sign));
                    assert forall|m: Seq<char>| #[trigger] self.has_name(m) <==> (m == n || old(self).has_name(m)) by {
                        if self.has_name(m) {
                            let i = choose|i: int| 0 <= i < e1.len() && (#[trigger] e1[i]).0 == m;
                            if i < p {
                                assert(e0[i] == e1[i]);
                            } else if i > p {
                                assert(e0[i - 1] == e1[i]);
                            }
                        }
                        if old(self).has_name(m) {
                            let i = choose|i: int| 0 <= i < e0.len() && (#[trigger] e0[i]).0 == m;
                            if i < p {
                                assert(e1[i] == e0[i]);
                            } else {
                                assert(e1[i + 1] == e0[i]);
                            }
                        }
                    }
                }
                None
            },
        }
    }

    /// Removes the entry named `name` and returns its sign.
    pub fn remove(&mut self, name: &str) -> (r: Option<Sign>)
        requires
            old(self).wf(),
        ensures
            final(self).wf(),
            r matches Some(prev) ==> exists|p: int|
                0 <= p < old(self).entries().len() && (#[trigger] old(self).entries()[p]) == (name@, prev)
                    && final(self).entries() == old(self).entries().remove(p),
            r is None ==> !old(self).has_name(name@) && *final(self) == *old(self),
            forall|n: Seq<char>| #[trigger]
                final(self).has_name(n) <==> (old(self).has_name(n) && n != name@),
    {
        let ghost e0 = self.entries();
        match self.position(name) {
            Some(p) => {
                let (_, prev) = self.signs.remove(p);
                proof {
                    let e1 = self.entries();
                    assert(e1 =~= e0.remove(p as int));
                    assert forall|i: int, j: int| 0 <= i < j < e1.len() implies name_lt(
                        #[trigger] e1[i].0,
                        #[trigger] e1[j].0,
                    ) by {
                        if i < p && j >= p {
                            assert(e1[j] == e0[j + 1]);
                        } else if i >= p {
                            assert(e1[i] == e0[i + 1]);
                            assert(e1[j] == e0[j + 1]);
                        }
                    }
                    assert forall|i: int| 0 <= i < e1.len() implies (#[trigger] e1[i]).1.wf() by {
                        if i >= p {
                            assert(e1[i] == e0[i + 1]);
                        }
                    }
                    assert forall|m: Seq<char>| #[trigger] self.has_name(m) <==> (old(self).has_name(m) && m != name@) by {
                        lemma_name_lt_irreflexive(m);
                        if self.has_name(m) {
                            let i = choose|i: int| 0 <= i < e1.len() && (#[trigger] e1[i]).0 == m;
                            if i < p {
                                assert(e0[i] == e1[i]);
                                assert(name_lt(e0[i].0, e0[p as int].0));
                            } else {
                                assert(e0[i + 1] == e1[i]);
                                assert(name_lt(e0[p as int].0, e0[i + 1].0));
                            }
                        }
                        if old(self).has_name(m) && m != name@ {
                            let i = choose|i: int| 0 <= i < e0.len() && (#[trigger] e0[i]).0 == m;
                            if i < p {
                                assert(e1[i] == e0[i]);
                            } else {
                                assert(e1[i - 1] == e0[i]);
                            }
                        }
                    }
                }
                Some(prev)
            },
            None => None,
        }
    }

    /// Marks a feature of the sign named `name`, as `Sign::set_feature`
    /// does. `None` when there is no such sign, with nothing changed.
    pub fn set_feature(
        &mut self,
        name: &str,
        feature_index: usize,
        irrelevant: bool,
        required: bool,
    ) -> (r: Option<Result<(), BitIndexError>>)
        requires
            old(self).wf(),
        ensures
            final(self).wf(),
            r is None ==> !old(self).has_name(name@) && *final(self) == *old(self),
            r is Some ==> exists|p: int|
                #![trigger old(self).entries()[p]]
                {
                    let e0 = old(self).entries();
                    let e1 = final(self).entries();
                    &&& 0 <= p < e0.len()
                    &&& e0[p].0 == name@
                    &&& e1.len() == e0.len()
                    &&& e1[p].0 == name@
                    &&& feature_index < FEATURE_COUNT ==> (r matches Some(Ok(_))) && feature_set(
                        e0[p].1,
                        e1[p].1,
                        feature_index,
                        irrelevant,
                        required,
                    )
                    &&& feature_index >= FEATURE_COUNT ==> e1[p] == e0[p] && r == Some(
                        Err::<(), BitIndexError>(
                            BitIndexError { index: feature_index, capacity: FEATURE_COUNT },
                        ),
                    )
                    &&& forall|i: int| 0 <= i < e0.len() && i != p ==> #[trigger] e1[i] == e0[i]
                },
    {
        let ghost e0 = self.entries();
        match self.position(name) {
            Some(p) => {
                let (n, mut s) = self.signs.remove(p);
                let ghost s0 = s;
                let r = s.set_feature(feature_index, irrelevant, required);
                self.signs.insert(p, (n, s));
                proof {
                    let e1 = self.entries();
                    assert(e1 =~= e0.update(p as int, (e0[p as int].0, s)));
                    assert forall|i: int, j: int| 0 <= i < j < e1.len() implies name_lt(
                        #[trigger] e1[i].0,
                        #[trigger] e1[j].0,
                    ) by {
                        assert(e0[i].0 == e1[i].0);
                        assert(e0[j].0 == e1[j].0);
                    }
                    assert(e0[p as int].1 == s0);
                    assert(e1[p as int] == (e0[p as int].0, s));
                    assert forall|i: int| 0 <= i < e1.len() implies (#[trigger] e1[i]).1.wf() by {
                        assert(e0[i].1.wf());
                    }
                    assert(0 <= p < e0.len() && e0[p as int].0 == name@);
                    if feature_index < FEATURE_COUNT {
                        assert(feature_set(e0[p as int].1, e1[p as int].1, feature_index, irrelevant, required));
                    } else {
                        assert(e1[p as int] == e0[p as int]);
                    }
                    assert(forall|i: int| 0 <= i < e0.len() && i != p ==> #[trigger] e1[i] == e0[i]);
                }
                Some(r)
            },
            None => None,
        }
    }
    /// The names, in order.
    pub open spec fn names(&self) -> Seq<Seq<char>> {
        self.entries().map_values(|e: (Seq<char>, Sign)| e.0)
    }

    /// A dictionary holds at most as many of the proposed names as it has
    /// entries.
    proof fn lemma_candidates_bounded(&self, m: nat)
        requires
            forall|j: nat| j < m ==> self.has_name(#[trigger] candidate_name(j)),
        ensures
            m <= self.entries().len(),
    {
        let cands = Seq::new(m, |j: int| candidate_name(j as nat));
        assert(cands.no_duplicates()) by {
            assert forall|i: int, j: int| 0 <= i < cands.len() && 0 <= j < cands.len() && i != j implies cands[i] != cands[j] by {
                if cands[i] == cands[j] {
                    lemma_candidate_injective(i as nat, j as nat);
                }
            }
        }
        let names = self.names();
        assert(cands.to_set().subset_of(names.to_set())) by {
            assert forall|c: Seq<char>| cands.to_set().contains(c) implies names.to_set().contains(c) by {
                let j = choose|j: int| 0 <= j < cands.len() && cands[j] == c;
                assert(self.has_name(candidate_name(j as nat)));
                let i = choose|i: int| 0 <= i < self.entries().len() && (#[trigger] self.entries()[i]).0 == candidate_name(j as nat);
                assert(names[i] == c);
            }
        }
        cands.unique_seq_to_set();
        names.lemma_cardinality_of_set();
        vstd::set_lib::lemma_len_subset(cands.to_set(), names.to_set());
    }

    /// The first of "New Sign ", "New Sign 1", "New Sign 2", ... that
    /// names no entry.
    pub fn next_valid_name(&self) -> (r: String)
        requires
            self.wf(),
            self.entries().len() < usize::MAX,
        ensures
            !self.has_name(r@),
            exists|k: nat| #[trigger]
                candidate_name(k) == r@ && forall|j: nat| j < k ==> self.has_name(
                    #[trigger] candidate_name(j),
                ),
    {
        let mut sign_name = String::from_str(NEW_SIGN_NAME);
        let mut i: usize = 1;
        while self.position(sign_name.as_str()).is_some()
            invariant
                self.wf(),
                self.entries().len() < usize::MAX,
                1 <= i <= self.entries().len() + 1,
                sign_name@ == candidate_name((i - 1) as nat),
                forall|j: nat| j < i - 1 ==> self.has_name(#[trigger] candidate_name(j)),
            decreases self.entries().len() + 1 - i,
        {
            proof {
                assert forall|j: nat| j < i implies self.has_name(#[trigger] candidate_name(j)) by {
                    if j == i - 1 {
                        let p = choose|p: usize| p < self.entries().len() && self.entries()[p as int].0 == sign_name@;
                        assert(self.entries()[p as int].0 == candidate_name(j));
                    }
                }
                self.lemma_candidates_bounded(i as nat);
            }
            let digits = decimal_string(i);
            sign_name = String::from_str(NEW_SIGN_NAME).concat(digits.as_str());
            i = i + 1;
        }
        sign_name
    }
}


impl Default for SignDictionary {
    fn default() -> (r: SignDictionary)
        ensures
            r.wf(),
            r.entries() == Seq::<(Seq<char>, Sign)>::empty(),
    {
        SignDictionary::new()
    }
}

} // verus!
