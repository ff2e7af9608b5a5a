//! A set of ids kept in ascending order, the order in which `BTreeSet<String>`
//! walks its strings.
use vstd::prelude::*;
use crate::text::chars_of;

verus! {

/// Lexicographic order of char sequences by code point, the order of `String`.
pub open spec fn seq_lt(a: Seq<char>, b: Seq<char>) -> bool
    decreases a.len(),
{
    if a.len() == 0 {
        b.len() > 0
    } else if b.len() == 0 {
        false
    } else if a[0] != b[0] {
        a[0] < b[0]
    } else {
        seq_lt(a.drop_first(), b.drop_first())
    }
}

/// No text comes before itself.
pub proof fn lemma_lt_irreflexive(a: Seq<char>)
    ensures
        !seq_lt(a, a),
    decreases a.len(),
{
    if a.len() > 0 {
        lemma_lt_irreflexive(a.drop_first());
    }
}

/// Of two different texts, one comes before the other.
pub proof fn lemma_lt_total(a: Seq<char>, b: Seq<char>)
    ensures
        a == b || seq_lt(a, b) || seq_lt(b, a),
    decreases a.len(),
{
    if a.len() > 0 && b.len() > 0 && a[0] == b[0] {
        lemma_lt_total(a.drop_first(), b.drop_first());
        if a.drop_first() == b.drop_first() {
            assert(a =~= seq![a[0]] + a.drop_first());
            assert(b =~= seq![b[0]] + b.drop_first());
        }
    } else if a.len() == 0 && b.len() == 0 {
        assert(a =~= b);
    }
}

/// Two texts do not each come before the other.
pub proof fn lemma_lt_asymmetric(a: Seq<char>, b: Seq<char>)
    requires
        seq_lt(a, b),
    ensures
        !seq_lt(b, a),
    decreases a.len(),
{
    if a.len() > 0 && b.len() > 0 && a[0] == b[0] {
        lemma_lt_asymmetric(a.drop_first(), b.drop_first());
    }
}

/// The order of texts is transitive.
pub proof fn lemma_lt_transitive(a: Seq<char>, b: Seq<char>, c: Seq<char>)
    requires
        seq_lt(a, b),
        seq_lt(b, c),
    ensures
        seq_lt(a, c),
    decreases a.len(),
{
    if a.len() > 0 && b.len() > 0 && c.len() > 0 && a[0] == b[0] && b[0] == c[0] {
        lemma_lt_transitive(a.drop_first(), b.drop_first(), c.drop_first());
    }
}

/// Whether `a` sorts before `b`.
pub fn chars_lt(a: &Vec<char>, b: &Vec<char>) -> (r: bool)
    ensures
        r == seq_lt(a@, b@),
{
    let mut i: usize = 0;
    assert(a@.skip(0) =~= a@);
    assert(b@.skip(0) =~= b@);
    while i < a.len() && i < b.len() && a[i] == b[i]
        invariant
            0 <= i <= a.len(),
            i <= b.len(),
            seq_lt(a@, b@) == seq_lt(a@.skip(i as int), b@.skip(i as int)),
        decreases a.len() - i,
    {
        assert(a@.skip(i as int).drop_first() =~= a@.skip(i + 1));
        assert(b@.skip(i as int).drop_first() =~= b@.skip(i + 1));
        i = i + 1;
    }
    if i == a.len() {
        i < b.len()
    } else if i == b.len() {
        false
    } else {
        a[i] < b[i]
    }
}

/// Ids in ascending order, each once.
#[derive(Debug)]
pub struct TargetIdSet {
    ids: Vec<String>,
}

/// Strictly ascending.
pub open spec fn sorted(s: Seq<Seq<char>>) -> bool {
    forall|i: int, j: int| 0 <= i < j < s.len() ==> seq_lt(#[trigger] s[i], #[trigger] s[j])
}

/// A strictly ascending sequence holds each value once.
pub proof fn lemma_sorted_distinct(s: Seq<Seq<char>>)
    requires
        sorted(s),
    ensures
        s.no_duplicates(),
{
    assert forall|i: int, j: int| 0 <= i < s.len() && 0 <= j < s.len() && i != j implies s[i] != s[j] by {
        if i < j {
            assert(seq_lt(s[i], s[j]));
        } else {
            assert(seq_lt(s[j], s[i]));
        }
        lemma_lt_irreflexive(s[i]);
    }
}

impl TargetIdSet {
    /// The ids in ascending order.
    pub closed spec fn view(&self) -> Seq<Seq<char>> {
        self.ids.deep_view()
    }

    /// The ids are kept strictly ascending.
    #[verifier::type_invariant]
    spec fn wf(&self) -> bool {
        sorted(self.ids.deep_view())
    }

    /// The empty set.
    pub fn new() -> (r: Self)
        ensures
            r@.len() == 0,
            sorted(r@),
    {
        let ids: Vec<String> = Vec::new();
        assert(ids.deep_view() =~= Seq::<Seq<char>>::empty());
        TargetIdSet { ids }
    }

    /// Number of ids: the ids are kept ascending, so each is there once and
    /// the number is that of the set.
    pub fn len(&self) -> (r: usize)
        ensures
            r == self@.len(),
            sorted(self@),
            self@.no_duplicates(),
            r == self@.to_set().len(),
    {
        proof {
            use_type_invariant(self);
            lemma_sorted_distinct(self@);
            self@.unique_seq_to_set();
        }
        self.ids.len()
    }

    /// Whether the set is empty.
    pub fn is_empty(&self) -> (r: bool)
        ensures
            r == (self@.len() == 0),
    {
        self.ids.len() == 0
    }

    /// Whether `id` is in the set.
    pub fn contains(&self, id: &str) -> (r: bool)
        ensures
            r == self@.contains(id@),
    {
        let key = id.to_string();
        crate::address::contains_string(&self.ids, &key)
    }

    /// The ids in ascending order.
    pub fn to_vec(&self) -> (r: Vec<String>)
        ensures
            r.deep_view() == self@,
            sorted(self@),
    {
        proof {
            use_type_invariant(self);
        }
        let mut r: Vec<String> = Vec::new();
        let mut i: usize = 0;
        while i < self.ids.len()
            invariant
                0 <= i <= self.ids.len(),
                r.deep_view() == self.ids.deep_view().take(i as int),
            decreases self.ids.len() - i,
        {
            let ghost d = r.deep_view();
            let c = self.ids[i].clone();
            r.push(c);
            assert(r.deep_view() =~= d.push(self.ids[i as int]@));
            i = i + 1;
            assert(r.deep_view() =~= self.ids.deep_view().take(i as int));
        }
        assert(self.ids.deep_view().take(self.ids.len() as int) =~= self.ids.deep_view());
        r
    }

    /// Adds `id`; true when it was not there yet (`BTreeSet::insert`).
    pub fn insert(&mut self, id: String) -> (r: bool)
        ensures
            r == !old(self)@.contains(id@),
            final(self)@.to_set() == old(self)@.to_set().insert(id@),
            sorted(final(self)@),
    {
        proof {
            use_type_invariant(&*self);
        }
        let key = chars_of(id.as_str());
        let ghost old_ids = self.ids.deep_view();
        let mut p: usize = 0;
        while p < self.ids.len() && chars_lt(&chars_of(self.ids[p].as_str()), &key)
            invariant
                0 <= p <= self.ids.len(),
                key@ == id@,
                self.ids.deep_view() == old_ids,
                sorted(old_ids),
                forall|k: int| 0 <= k < p ==> seq_lt(#[trigger] old_ids[k], id@),
            decreases self.ids.len() - p,
        {
            p = p + 1;
        }
        if p < self.ids.len() {
            let here = chars_of(self.ids[p].as_str());
            if here.len() == key.len() && !chars_lt(&key, &here) {
                proof {
                    lemma_lt_total(old_ids[p as int], id@);
                }
                assert(old_ids[p as int] == id@);
                assert(old_ids.contains(id@));
                assert(old_ids.to_set() =~= old_ids.to_set().insert(id@));
                return false;
            }
            proof {
                lemma_lt_total(old_ids[p as int], id@);
                if old_ids[p as int] == id@ {
                    lemma_lt_irreflexive(id@);
                }
            }
            assert(seq_lt(id@, old_ids[p as int]));
        }
        proof {
            assert forall|k: int| 0 <= k < old_ids.len() implies old_ids[k] != id@ by {
                if k < p {
                    lemma_lt_irreflexive(id@);
                } else {
                    if p < k {
                        lemma_lt_transitive(id@, old_ids[p as int], old_ids[k]);
                    }
                    lemma_lt_irreflexive(id@);
                }
            }
        }
        let mut ids: Vec<String> = Vec::new();
        assert(ids.deep_view() =~= Seq::<Seq<char>>::empty());
        std::mem::swap(&mut ids, &mut self.ids);
        assert(ids.deep_view() == old_ids);
        ids.insert(p, id);
        let ghost new_ids = ids.deep_view();
        assert(new_ids =~= old_ids.insert(p as int, key@));
        assert forall|i: int, j: int|
            0 <= i < j < new_ids.len() implies seq_lt(#[trigger] new_ids[i], #[trigger] new_ids[j]) by {
            if j < p {
            } else if j == p {
            } else if i < p {
                if j - 1 > p {
                    lemma_lt_transitive(new_ids[i], key@, old_ids[p as int]);
                    lemma_lt_transitive(new_ids[i], old_ids[p as int], old_ids[j - 1]);
                } else {
                    lemma_lt_transitive(new_ids[i], key@, old_ids[j - 1]);
                }
            } else if i == p {
                if j - 1 > p {
                    lemma_lt_transitive(key@, old_ids[p as int], old_ids[j - 1]);
                }
            } else {
                assert(new_ids[i] == old_ids[i - 1]);
                assert(new_ids[j] == old_ids[j - 1]);
            }
        }
        assert(new_ids.to_set() =~= old_ids.to_set().insert(id@)) by {
            assert forall|x: Seq<char>| new_ids.to_set().contains(x) implies old_ids.to_set().insert(
                id@,
            ).contains(x) by {
                let k = choose|k: int| 0 <= k < new_ids.len() && new_ids[k] == x;
                if k < p {
                    assert(old_ids[k] == x);
                } else if k > p {
                    assert(old_ids[k - 1] == x);
                }
            }
            assert forall|x: Seq<char>| old_ids.to_set().insert(id@).contains(x) implies new_ids.to_set().contains(
                x,
            ) by {
                if x == id@ {
                    assert(new_ids[p as int] == x);
                } else {
                    let k = choose|k: int| 0 <= k < old_ids.len() && old_ids[k] == x;
                    if k < p {
                        assert(new_ids[k] == x);
                    } else {
                        assert(new_ids[k + 1] == x);
                    }
                }
            }
        }
        self.ids = ids;
        true
    }

    /// Removes `id`; true when it was there (`BTreeSet::remove`).
    pub fn remove(&mut self, id: &str) -> (r: bool)
        ensures
            r == old(self)@.contains(id@),
            final(self)@.to_set() == old(self)@.to_set().remove(id@),
            sorted(final(self)@),
    {
        proof {
            use_type_invariant(&*self);
        }
        let key = id.to_string();
        let ghost old_ids = self.ids.deep_view();
        let mut i: usize = 0;
        while i < self.ids.len()
            invariant
                0 <= i <= self.ids.len(),
                key@ == id@,
                self.ids.deep_view() == old_ids,
                old_ids == old(self)@,
                sorted(old_ids),
                forall|k: int| 0 <= k < i ==> old_ids[k] != id@,
            decreases self.ids.len() - i,
        {
            if self.ids[i] == key {
                let ghost p = i as int;
                let mut ids: Vec<String> = Vec::new();
                assert(ids.deep_view() =~= Seq::<Seq<char>>::empty());
                std::mem::swap(&mut ids, &mut self.ids);
                assert(ids.deep_view() == old_ids);
                ids.remove(i);
                let ghost new_ids = ids.deep_view();
                assert(new_ids =~= old_ids.remove(p));
                assert forall|a: int, b: int|
                    0 <= a < b < new_ids.len() implies seq_lt(#[trigger] new_ids[a], #[trigger] new_ids[b]) by {
                    let oa = if a < p { a } else { a + 1 };
                    let ob = if b < p { b } else { b + 1 };
                    assert(new_ids[a] == old_ids[oa]);
                    assert(new_ids[b] == old_ids[ob]);
                }
                assert(old_ids.contains(id@)) by {
                    assert(old_ids[p] == id@);
                }
                assert(new_ids.to_set() =~= old_ids.to_set().remove(id@)) by {
                    assert forall|x: Seq<char>| new_ids.to_set().contains(x) implies old_ids.to_set().remove(
                        id@,
                    ).contains(x) by {
                        let k = choose|k: int| 0 <= k < new_ids.len() && new_ids[k] == x;
                        let ok = if k < p { k } else { k + 1 };
                        assert(old_ids[ok] == x);
                        if x == id@ {
                            if ok < p {
                                lemma_lt_irreflexive(x);
                                assert(seq_lt(old_ids[ok], old_ids[p]));
                            } else {
                                lemma_lt_irreflexive(x);
                                assert(seq_lt(old_ids[p], old_ids[ok]));
                            }
                        }
                    }
                    assert forall|x: Seq<char>| old_ids.to_set().remove(id@).contains(x) implies new_ids.to_set().contains(
                        x,
                    ) by {
                        let k = choose|k: int| 0 <= k < old_ids.len() && old_ids[k] == x;
                        if k < p {
                            assert(new_ids[k] == x);
                        } else {
                            assert(k != p);
                            assert(new_ids[k - 1] == x);
                        }
                    }
                }
                self.ids = ids;
                return true;
            }
            i = i + 1;
        }
        assert(!old_ids.contains(id@));
        assert(old_ids.to_set().remove(id@) =~= old_ids.to_set());
        false
    }
}

} // verus!
