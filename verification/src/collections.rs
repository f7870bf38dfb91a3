//! A string-keyed map that keeps its keys in ascending order, as a
//! `BTreeMap<String, V>` iterates them.

use vstd::prelude::*;
use crate::text::chars_of;

verus! {

/// Lexicographic order on character sequences (the order of `String`).
pub open spec fn seq_lt(a: Seq<char>, b: Seq<char>) -> bool
    decreases a.len(),
{
    if a.len() == 0 {
        b.len() > 0
    } else if b.len() == 0 {
        false
    } else if a[0] < b[0] {
        true
    } else if a[0] > b[0] {
        false
    } else {
        seq_lt(a.drop_first(), b.drop_first())
    }
}

pub proof fn lemma_seq_lt_irreflexive(a: Seq<char>)
    ensures
        !seq_lt(a, a),
    decreases a.len(),
{
    if a.len() > 0 {
        lemma_seq_lt_irreflexive(a.drop_first());
    }
}

pub proof fn lemma_seq_lt_total(a: Seq<char>, b: Seq<char>)
    ensures
        a == b || seq_lt(a, b) || seq_lt(b, a),
        !(seq_lt(a, b) && seq_lt(b, a)),
    decreases a.len(),
{
    if a.len() > 0 && b.len() > 0 && a[0] == b[0] {
        lemma_seq_lt_total(a.drop_first(), b.drop_first());
        if a.drop_first() == b.drop_first() {
            assert(a =~= seq![a[0]] + a.drop_first());
            assert(b =~= seq![b[0]] + b.drop_first());
        }
    } else if a.len() == 0 && b.len() == 0 {
        assert(a =~= b);
    }
}

pub proof fn lemma_seq_lt_transitive(a: Seq<char>, b: Seq<char>, c: Seq<char>)
    requires
        seq_lt(a, b),
        seq_lt(b, c),
    ensures
        seq_lt(a, c),
    decreases a.len(),
{
    if a.len() > 0 && b.len() > 0 && c.len() > 0 && a[0] == b[0] && b[0] == c[0] {
        lemma_seq_lt_transitive(a.drop_first(), b.drop_first(), c.drop_first());
    }
}

/// `a < b` as `String`s.
pub fn chars_less(a: &[char], b: &[char]) -> (r: bool)
    ensures
        r == seq_lt(a@, b@),
{
    let mut i: usize = 0;
    assert(a@.skip(0) =~= a@);
    assert(b@.skip(0) =~= b@);
    while i < a.len() && i < b.len() && a[i] == b[i]
        invariant
            i <= a@.len(),
            i <= b@.len(),
            a@.take(i as int) == b@.take(i as int),
            seq_lt(a@, b@) == seq_lt(a@.skip(i as int), b@.skip(i as int)),
        decreases a.len() - i,
    {
        proof {
            let sa = a@.skip(i as int);
            let sb = b@.skip(i as int);
            assert(sa.drop_first() =~= a@.skip(i + 1));
            assert(sb.drop_first() =~= b@.skip(i + 1));
            assert(a@.take(i + 1) =~= a@.take(i as int).push(a@[i as int]));
            assert(b@.take(i + 1) =~= b@.take(i as int).push(b@[i as int]));
        }
        i += 1;
    }
    if i == a.len() {
        i < b.len()
    } else if i == b.len() {
        false
    } else {
        a[i] < b[i]
    }
}

/// `a < b` as `String`s.
pub fn str_less(a: &str, b: &str) -> (r: bool)
    ensures
        r == seq_lt(a@, b@),
{
    let va = chars_of(a);
    let vb = chars_of(b);
    chars_less(va.as_slice(), vb.as_slice())
}

/// `a < b` as `String`s, with `b` given by its characters.
pub fn key_less(a: &String, b: &[char]) -> (r: bool)
    ensures
        r == seq_lt(a@, b@),
{
    let va = chars_of(a.as_str());
    chars_less(va.as_slice(), b)
}

/// Keys strictly ascending.
pub open spec fn keys_ascending<V>(e: Seq<(Seq<char>, V)>) -> bool {
    forall|i: int, j: int| 0 <= i < j < e.len() ==> seq_lt(#[trigger] e[i].0, #[trigger] e[j].0)
}

/// The value under key `k`, if present.
pub open spec fn assoc_get<V>(e: Seq<(Seq<char>, V)>, k: Seq<char>) -> Option<V> {
    if exists|i: int| 0 <= i < e.len() && e[i].0 == k {
        Some(e[choose|i: int| 0 <= i < e.len() && e[i].0 == k].1)
    } else {
        None
    }
}

/// The keys of an association list.
pub open spec fn assoc_keys<V>(e: Seq<(Seq<char>, V)>) -> Seq<Seq<char>> {
    e.map_values(|x: (Seq<char>, V)| x.0)
}

pub proof fn lemma_assoc_get_at<V>(e: Seq<(Seq<char>, V)>, i: int)
    requires
        keys_ascending(e),
        0 <= i < e.len(),
    ensures
        assoc_get(e, e[i].0) == Some(e[i].1),
{
    let j = choose|j: int| 0 <= j < e.len() && e[j].0 == e[i].0;
    assert(0 <= j < e.len() && e[j].0 == e[i].0);
    if j < i {
        lemma_seq_lt_irreflexive(e[i].0);
        assert(seq_lt(e[j].0, e[i].0));
    }
    if i < j {
        lemma_seq_lt_irreflexive(e[i].0);
        assert(seq_lt(e[i].0, e[j].0));
    }
}

/// A map from strings to values whose entries are kept ordered by key.
#[derive(Debug)]
pub struct StrMap<V> {
    entries: Vec<(String, V)>,
}

/// The entries with their keys taken by view.
pub open spec fn entries_view<V>(e: Seq<(String, V)>) -> Seq<(Seq<char>, V)> {
    e.map_values(|x: (String, V)| (x.0@, x.1))
}

impl<V> View for StrMap<V> {
    type V = Seq<(Seq<char>, V)>;

    closed spec fn view(&self) -> Seq<(Seq<char>, V)> {
        entries_view(self.entries@)
    }
}

impl<V> StrMap<V> {
    #[verifier::type_invariant]
    pub open spec fn ascending(self) -> bool {
        keys_ascending(self@)
    }

    /// The value under key `k`, if present.
    pub open spec fn spec_get(&self, k: Seq<char>) -> Option<V> {
        assoc_get(self@, k)
    }

    /// The keys, in ascending order.
    pub open spec fn keys(&self) -> Seq<Seq<char>> {
        assoc_keys(self@)
    }

    /// An empty map.
    pub fn new() -> (m: Self)
        ensures
            m@ == Seq::<(Seq<char>, V)>::empty(),
    {
        let m = StrMap { entries: Vec::new() };
        assert(m@ =~= Seq::<(Seq<char>, V)>::empty());
        m
    }

    /// Number of entries.
    pub fn len(&self) -> (n: usize)
        ensures
            n == self@.len(),
    {
        self.entries.len()
    }

    /// Key of the `i`-th entry in ascending order.
    pub fn key_at(&self, i: usize) -> (k: &String)
        requires
            i < self@.len(),
        ensures
            k@ == self@[i as int].0,
    {
        &self.entries[i].0
    }

    /// Value of the `i`-th entry in ascending order.
    pub fn value_at(&self, i: usize) -> (v: &V)
        requires
            i < self@.len(),
        ensures
            *v == self@[i as int].1,
    {
        &self.entries[i].1
    }

    /// Position of key `k`, if present.
    pub fn index_of(&self, k: &str) -> (r: Option<usize>)
        ensures
            match r {
                Some(i) => i < self@.len() && self@[i as int].0 == k@,
                None => forall|i: int| 0 <= i < self@.len() ==> self@[i].0 != k@,
            },
    {
        let kv = chars_of(k);
        let mut i: usize = 0;
        while i < self.entries.len()
            invariant
                i <= self@.len(),
                self@.len() == self.entries@.len(),
                kv@ == k@,
                forall|j: int| 0 <= j < i ==> self@[j].0 != k@,
            decreases self.entries.len() - i,
        {
            let ev = chars_of(self.entries[i].0.as_str());
            if crate::text::chars_eq(ev.as_slice(), kv.as_slice()) {
                return Some(i);
            }
            i += 1;
        }
        None
    }

    /// `BTreeMap::get`.
    pub fn get(&self, k: &str) -> (r: Option<&V>)
        ensures
            match r {
                Some(v) => self.spec_get(k@) == Some(*v),
                None => self.spec_get(k@) is None,
            },
    {
        proof {
            use_type_invariant(self);
        }
        match self.index_of(k) {
            Some(i) => {
                proof {
                    lemma_assoc_get_at(self@, i as int);
                }
                Some(&self.entries[i].1)
            },
            None => None,
        }
    }

    /// `BTreeMap::contains_key`.
    pub fn contains_key(&self, k: &str) -> (r: bool)
        ensures
            r == (self.spec_get(k@) is Some),
    {
        match self.get(k) {
            Some(_) => true,
            None => false,
        }
    }

    /// `BTreeMap::insert`: sets the value under `k`, keeping the keys ordered.
    pub fn insert(&mut self, k: String, v: V)
        ensures
            final(self).spec_get(k@) == Some(v),
            forall|q: Seq<char>| q != k@ ==> final(self).spec_get(q) == old(self).spec_get(q),
            final(self).keys().to_set() == old(self).keys().to_set().insert(k@),
    {
        proof {
            use_type_invariant(&*self);
        }
        let ghost e0 = self@;
        let mut ents: Vec<(String, V)> = Vec::new();
        std::mem::swap(&mut ents, &mut self.entries);
        assert(entries_view(ents@) == e0);
        let kv = chars_of(k.as_str());
        let mut p: usize = 0;
        while p < ents.len() && key_less(&ents[p].0, kv.as_slice())
            invariant
                p <= e0.len(),
                e0 == entries_view(ents@),
                kv@ == k@,
                keys_ascending(e0),
                forall|j: int| 0 <= j < p ==> seq_lt(e0[j].0, k@),
            decreases ents.len() - p,
        {
            p += 1;
        }
        proof {
            assert forall|j: int| p <= j < e0.len() implies !seq_lt(e0[j].0, k@) by {
                assert(e0[p as int].0 == ents@[p as int].0@);
                assert(!seq_lt(e0[p as int].0, k@));
                if j > p && seq_lt(e0[j].0, k@) {
                    assert(seq_lt(e0[p as int].0, e0[j].0));
                    lemma_seq_lt_transitive(e0[p as int].0, e0[j].0, k@);
                }
            }
        }
        let mut found = false;
        if p < ents.len() {
            let ev = chars_of(ents[p].0.as_str());
            found = crate::text::chars_eq(ev.as_slice(), kv.as_slice());
        }
        if found {
            ents.set(p, (k, v));
            proof {
                let e1 = entries_view(ents@);
                assert(e1 =~= e0.update(p as int, (k@, v)));
                assert(keys_ascending(e1)) by {
                    assert forall|i: int, j: int| 0 <= i < j < e1.len() implies seq_lt(
                        #[trigger] e1[i].0,
                        #[trigger] e1[j].0,
                    ) by {
                        assert(seq_lt(e0[i].0, e0[j].0));
                    }
                }
                lemma_assoc_get_at(e1, p as int);
                assert forall|q: Seq<char>| q != k@ implies assoc_get(e1, q) == assoc_get(e0, q) by {
                    if exists|i: int| 0 <= i < e1.len() && e1[i].0 == q {
                        let i = choose|i: int| 0 <= i < e1.len() && e1[i].0 == q;
                        lemma_assoc_get_at(e1, i);
                        lemma_assoc_get_at(e0, i);
                    } else {
                        assert forall|i: int| 0 <= i < e0.len() implies e0[i].0 != q by {
                            assert(e1[i].0 == e0[i].0 || i == p);
                        }
                    }
                }
                assert(assoc_keys(e1) =~= assoc_keys(e0));
                assert(assoc_keys(e0).to_set().insert(k@) =~= assoc_keys(e0).to_set()) by {
                    assert(assoc_keys(e0)[p as int] == k@);
                }
            }
            self.entries = ents;
        } else {
            ents.insert(p, (k, v));
            proof {
                let e1 = entries_view(ents@);
                assert(e1 =~= e0.insert(p as int, (k@, v)));
                assert forall|j: int| p <= j < e0.len() implies seq_lt(k@, e0[j].0) by {
                    lemma_seq_lt_total(k@, e0[j].0);
                    if j == p {
                    } else {
                        assert(seq_lt(e0[p as int].0, e0[j].0));
                        if e0[j].0 == k@ {
                            lemma_seq_lt_total(e0[p as int].0, k@);
                        }
                    }
                }
                assert(keys_ascending(e1)) by {
                    assert forall|i: int, j: int| 0 <= i < j < e1.len() implies seq_lt(
                        #[trigger] e1[i].0,
                        #[trigger] e1[j].0,
                    ) by {
                        if j < p {
                            assert(seq_lt(e0[i].0, e0[j].0));
                        } else if j == p {
                        } else if i < p {
                            assert(seq_lt(e0[i].0, k@));
                            lemma_seq_lt_transitive(e0[i].0, k@, e0[j - 1].0);
                        } else if i == p {
                        } else {
                            assert(seq_lt(e0[i - 1].0, e0[j - 1].0));
                        }
                    }
                }
                lemma_assoc_get_at(e1, p as int);
                assert forall|q: Seq<char>| q != k@ implies assoc_get(e1, q) == assoc_get(e0, q) by {
                    if exists|i: int| 0 <= i < e1.len() && e1[i].0 == q {
                        let i = choose|i: int| 0 <= i < e1.len() && e1[i].0 == q;
                        lemma_assoc_get_at(e1, i);
                        if i < p {
                            lemma_assoc_get_at(e0, i);
                        } else {
                            lemma_assoc_get_at(e0, i - 1);
                        }
                    } else {
                        assert forall|i: int| 0 <= i < e0.len() implies e0[i].0 != q by {
                            if i < p {
                                assert(e1[i] == e0[i]);
                            } else {
                                assert(e1[i + 1] == e0[i]);
                            }
                        }
                    }
                }
                assert(assoc_keys(e1) =~= assoc_keys(e0).insert(p as int, k@));
                assert(assoc_keys(e1).to_set() =~= assoc_keys(e0).to_set().insert(k@)) by {
                    assert forall|x: Seq<char>| assoc_keys(e1).contains(x) <==> assoc_keys(
                        e0,
                    ).contains(x) || x == k@ by {
                        if assoc_keys(e1).contains(x) {
                            let i = choose|i: int| 0 <= i < assoc_keys(e1).len() && assoc_keys(
                                e1,
                            )[i] == x;
                            if i < p {
                                assert(assoc_keys(e0)[i] == x);
                            } else if i > p {
                                assert(assoc_keys(e0)[i - 1] == x);
                            }
                        }
                        if assoc_keys(e0).contains(x) {
                            let i = choose|i: int| 0 <= i < assoc_keys(e0).len() && assoc_keys(
                                e0,
                            )[i] == x;
                            if i < p {
                                assert(assoc_keys(e1)[i] == x);
                            } else {
                                assert(assoc_keys(e1)[i + 1] == x);
                            }
                        }
                        if x == k@ {
                            assert(assoc_keys(e1)[p as int] == x);
                        }
                    }
                }
            }
            self.entries = ents;
        }
    }

    /// The keys, in ascending order.
    pub fn key_list(&self) -> (r: Vec<String>)
        ensures
            crate::text::str_views(r@) == self.keys(),
    {
        let mut out: Vec<String> = Vec::new();
        let mut i: usize = 0;
        while i < self.entries.len()
            invariant
                i <= self@.len(),
                self@.len() == self.entries@.len(),
                crate::text::str_views(out@) == self.keys().take(i as int),
            decreases self.entries.len() - i,
        {
            let ghost o0 = crate::text::str_views(out@);
            out.push(crate::text::string_from_str(self.entries[i].0.as_str()));
            assert(crate::text::str_views(out@) =~= self.keys().take(i + 1)) by {
                assert(self@ == entries_view(self.entries@));
                assert(self@[i as int].0 == self.entries@[i as int].0@);
                assert(self.keys()[i as int] == self@[i as int].0);
                assert(self.keys().take(i + 1) =~= self.keys().take(i as int).push(self.keys()[i as int]));
            }
            i += 1;
        }
        assert(self.keys().take(self@.len() as int) =~= self.keys());
        out
    }

    /// Replaces the value of the `i`-th entry, keeping its key.
    pub fn set_value_at(&mut self, i: usize, v: V)
        requires
            i < old(self)@.len(),
        ensures
            final(self)@ == old(self)@.update(i as int, (old(self)@[i as int].0, v)),
    {
        proof {
            use_type_invariant(&*self);
        }
        let ghost e0 = self@;
        let mut ents: Vec<(String, V)> = Vec::new();
        std::mem::swap(&mut ents, &mut self.entries);
        assert(entries_view(ents@) == e0);
        let k = crate::text::string_from_str(ents[i].0.as_str());
        ents.set(i, (k, v));
        proof {
            let e1 = entries_view(ents@);
            assert(e1 =~= e0.update(i as int, (e0[i as int].0, v)));
            assert forall|a: int, b: int| 0 <= a < b < e1.len() implies seq_lt(
                #[trigger] e1[a].0,
                #[trigger] e1[b].0,
            ) by {
                assert(e1[a].0 == e0[a].0);
                assert(e1[b].0 == e0[b].0);
            }
        }
        self.entries = ents;
    }

    /// `BTreeMap::remove`: drops the entry under `k`, if any.
    pub fn remove(&mut self, k: &str)
        ensures
            final(self).spec_get(k@) is None,
            forall|q: Seq<char>| q != k@ ==> final(self).spec_get(q) == old(self).spec_get(q),
    {
        proof {
            use_type_invariant(&*self);
        }
        let ghost e0 = self@;
        match self.index_of(k) {
            Some(i) => {
                let mut ents: Vec<(String, V)> = Vec::new();
                std::mem::swap(&mut ents, &mut self.entries);
                assert(entries_view(ents@) == e0);
                ents.remove(i);
                proof {
                    let e1 = entries_view(ents@);
                    assert(e1 =~= e0.remove(i as int));
                    assert(keys_ascending(e1)) by {
                        assert forall|a: int, b: int| 0 <= a < b < e1.len() implies seq_lt(
                            #[trigger] e1[a].0,
                            #[trigger] e1[b].0,
                        ) by {
                            let a0 = if a < i {
                                a
                            } else {
                                a + 1
                            };
                            let b0 = if b < i {
                                b
                            } else {
                                b + 1
                            };
                            assert(e1[a] == e0[a0]);
                            assert(e1[b] == e0[b0]);
                            assert(seq_lt(e0[a0].0, e0[b0].0));
                        }
                    }
                    assert forall|x: int| 0 <= x < e1.len() implies e1[x].0 != k@ by {
                        let x0 = if x < i {
                            x
                        } else {
                            x + 1
                        };
                        assert(e1[x] == e0[x0]);
                        assert(x0 != i);
                        if x0 < i {
                            assert(seq_lt(e0[x0].0, e0[i as int].0));
                        } else {
                            assert(seq_lt(e0[i as int].0, e0[x0].0));
                        }
                        lemma_seq_lt_irreflexive(k@);
                    }
                    assert forall|q: Seq<char>| q != k@ implies assoc_get(e1, q) == assoc_get(
                        e0,
                        q,
                    ) by {
                        if exists|x: int| 0 <= x < e1.len() && e1[x].0 == q {
                            let x = choose|x: int| 0 <= x < e1.len() && e1[x].0 == q;
                            lemma_assoc_get_at(e1, x);
                            if x < i {
                                lemma_assoc_get_at(e0, x);
                            } else {
                                lemma_assoc_get_at(e0, x + 1);
                            }
                        } else {
                            assert forall|x: int| 0 <= x < e0.len() implies e0[x].0 != q by {
                                if x < i {
                                    assert(e1[x] == e0[x]);
                                } else if x > i {
                                    assert(e1[x - 1] == e0[x]);
                                }
                            }
                        }
                    }
                }
                self.entries = ents;
            },
            None => {},
        }
    }
}

impl<V: Clone> Clone for StrMap<V> {
    fn clone(&self) -> (r: Self)
        ensures
            r@.len() == self@.len(),
            forall|i: int| 0 <= i < self@.len() ==> r@[i].0 == self@[i].0,
    {
        proof {
            use_type_invariant(self);
        }
        let mut entries: Vec<(String, V)> = Vec::new();
        let mut i: usize = 0;
        while i < self.entries.len()
            invariant
                i <= self.entries@.len(),
                entries@.len() == i,
                forall|j: int| 0 <= j < i ==> entries@[j].0@ == self.entries@[j].0@,
            decreases self.entries.len() - i,
        {
            let k = self.entries[i].0.clone();
            let v = self.entries[i].1.clone();
            entries.push((k, v));
            i += 1;
        }
        proof {
            let ev = entries_view(entries@);
            assert forall|a: int, b: int| 0 <= a < b < ev.len() implies seq_lt(
                #[trigger] ev[a].0,
                #[trigger] ev[b].0,
            ) by {
                assert(ev[a].0 == self@[a].0);
                assert(ev[b].0 == self@[b].0);
            }
        }
        let r = StrMap { entries };
        r
    }
}

/// An entry-for-entry copy of a map of strings.
pub fn copy_string_map(m: &StrMap<String>) -> (r: StrMap<String>)
    ensures
        forall|q: Seq<char>| #[trigger] crate::text::opt_string_view(r.spec_get(q)) == crate::text::opt_string_view(m.spec_get(q)),
{
    let mut out: StrMap<String> = StrMap::new();
    let ghost keys = m.keys();
    let mut i: usize = 0;
    while i < m.len()
        invariant
            i <= m@.len(),
            keys == m.keys(),
            keys.len() == m@.len(),
            forall|q: Seq<char>| #[trigger] crate::text::opt_string_view(out.spec_get(q)) == (if keys.take(i as int).contains(q) {
                crate::text::opt_string_view(m.spec_get(q))
            } else {
                None
            }),
        decreases m@.len() - i,
    {
        let k = m.key_at(i);
        let v = m.value_at(i);
        proof {
            use_type_invariant(m);
            lemma_assoc_get_at(m@, i as int);
            assert(keys[i as int] == k@);
            assert(keys.take(i + 1) =~= keys.take(i as int).push(k@));
        }
        out.insert(crate::text::string_from_str(k.as_str()), crate::text::string_from_str(v.as_str()));
        proof {
            assert forall|q: Seq<char>| #[trigger] crate::text::opt_string_view(out.spec_get(q)) == (if keys.take(i + 1).contains(q) {
                crate::text::opt_string_view(m.spec_get(q))
            } else {
                None
            }) by {
                let t1 = keys.take(i + 1);
                let t0 = keys.take(i as int);
                if q != k@ {
                    if t1.contains(q) {
                        let j = choose|j: int| 0 <= j < t1.len() && t1[j] == q;
                        assert(t0[j] == q);
                    }
                    if t0.contains(q) {
                        let j = choose|j: int| 0 <= j < t0.len() && t0[j] == q;
                        assert(t1[j] == q);
                    }
                } else {
                    assert(t1[i as int] == q);
                }
            }
        }
        i += 1;
    }
    proof {
        assert(keys.take(m@.len() as int) =~= keys);
        assert forall|q: Seq<char>| #[trigger] crate::text::opt_string_view(out.spec_get(q)) == crate::text::opt_string_view(m.spec_get(q)) by {
            if !keys.contains(q) {
                if exists|j: int| 0 <= j < m@.len() && m@[j].0 == q {
                    let j = choose|j: int| 0 <= j < m@.len() && m@[j].0 == q;
                    assert(keys[j] == q);
                }
            }
        }
    }
    out
}

} // verus!
