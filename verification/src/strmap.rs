//! Ordered string-to-string and string-to-records maps. Entries keep their
//! insertion order, which makes every fold over them deterministic; a repeated
//! insert replaces the first entry with the same key.

use vstd::prelude::*;

verus! {

use vstd::string::StringExecFns;
use crate::text::is_match_at;

/// Value of the first entry with key `k`.
pub open spec fn assoc_get<V>(entries: Seq<(Seq<char>, V)>, k: Seq<char>) -> Option<V>
    decreases entries.len(),
{
    if entries.len() == 0 {
        None
    } else if entries[0].0 == k {
        Some(entries[0].1)
    } else {
        assoc_get(entries.drop_first(), k)
    }
}

/// `entries` with the first `k` entry replaced by `(k, v)`, or `(k, v)`
/// appended when no entry has key `k`.
pub open spec fn assoc_put<V>(entries: Seq<(Seq<char>, V)>, k: Seq<char>, v: V) -> Seq<
    (Seq<char>, V),
>
    decreases entries.len(),
{
    if entries.len() == 0 {
        seq![(k, v)]
    } else if entries[0].0 == k {
        seq![(k, v)] + entries.drop_first()
    } else {
        seq![entries[0]] + assoc_put(entries.drop_first(), k, v)
    }
}

/// All of `other` put into `entries`, in `other`'s order.
pub open spec fn assoc_put_all<V>(
    entries: Seq<(Seq<char>, V)>,
    other: Seq<(Seq<char>, V)>,
) -> Seq<(Seq<char>, V)>
    decreases other.len(),
{
    if other.len() == 0 {
        entries
    } else {
        assoc_put_all(assoc_put(entries, other[0].0, other[0].1), other.drop_first())
    }
}

/// Putting a key makes it the one that `assoc_get` finds, and leaves every
/// other key's answer unchanged.
pub proof fn lemma_assoc_put_get<V>(entries: Seq<(Seq<char>, V)>, k: Seq<char>, v: V)
    ensures
        assoc_get(assoc_put(entries, k, v), k) == Some(v),
        forall|k2: Seq<char>|
            k2 != k ==> #[trigger] assoc_get(assoc_put(entries, k, v), k2) == assoc_get(
                entries,
                k2,
            ),
    decreases entries.len(),
{
    if entries.len() == 0 {
        let put = assoc_put(entries, k, v);
        assert(put == seq![(k, v)]);
        assert(put[0] == (k, v));
        assert(assoc_get(put, k) == Some(v));
        assert forall|k2: Seq<char>| k2 != k implies #[trigger] assoc_get(put, k2) == assoc_get(
            entries,
            k2,
        ) by {
            assert(put.drop_first() =~= Seq::<(Seq<char>, V)>::empty());
            assert(assoc_get(put, k2) == assoc_get(put.drop_first(), k2));
            assert(assoc_get(put.drop_first(), k2) is None);
        }
    } else if entries[0].0 == k {
        let put = assoc_put(entries, k, v);
        assert(put == seq![(k, v)] + entries.drop_first());
        assert(put[0] == (k, v));
        assert(put.drop_first() =~= entries.drop_first());
        assert forall|k2: Seq<char>| k2 != k implies #[trigger] assoc_get(put, k2) == assoc_get(
            entries,
            k2,
        ) by {
            assert(assoc_get(put, k2) == assoc_get(put.drop_first(), k2));
            assert(assoc_get(entries, k2) == assoc_get(entries.drop_first(), k2));
        }
    } else {
        lemma_assoc_put_get(entries.drop_first(), k, v);
        let put = assoc_put(entries, k, v);
        assert(put == seq![entries[0]] + assoc_put(entries.drop_first(), k, v));
        assert(put[0] == entries[0]);
        assert(put.drop_first() =~= assoc_put(entries.drop_first(), k, v));
        assert(assoc_get(put, k) == assoc_get(assoc_put(entries.drop_first(), k, v), k));
        assert forall|k2: Seq<char>| k2 != k implies #[trigger] assoc_get(put, k2) == assoc_get(
            entries,
            k2,
        ) by {
            if entries[0].0 == k2 {
                assert(assoc_get(put, k2) == Some(put[0].1));
                assert(assoc_get(entries, k2) == Some(entries[0].1));
            } else {
                assert(assoc_get(put, k2) == assoc_get(put.drop_first(), k2));
                assert(assoc_get(entries, k2) == assoc_get(entries.drop_first(), k2));
                assert(assoc_get(assoc_put(entries.drop_first(), k, v), k2) == assoc_get(
                    entries.drop_first(),
                    k2,
                ));
            }
        }
    }
}

/// Equality of two string slices, decided character by character.
pub fn str_eq(a: &str, b: &str) -> (r: bool)
    ensures
        r == (a@ == b@),
{
    let an = a.unicode_len();
    let bn = b.unicode_len();
    if an != bn {
        return false;
    }
    let r = is_match_at(a, b, 0);
    proof {
        if r {
            assert(a@.subrange(0, a@.len() as int) =~= a@);
        } else {
            if a@ == b@ {
                assert(a@.subrange(0, b@.len() as int) =~= b@);
            }
        }
    }
    r
}

/// A string-keyed map of strings with deterministic entry order.
pub struct StrMap {
    entries: Vec<(String, String)>,
}

impl View for StrMap {
    type V = Seq<(Seq<char>, Seq<char>)>;

    closed spec fn view(&self) -> Seq<(Seq<char>, Seq<char>)> {
        self.entries.deep_view()
    }
}

impl DeepView for StrMap {
    type V = Seq<(Seq<char>, Seq<char>)>;

    open spec fn deep_view(&self) -> Seq<(Seq<char>, Seq<char>)> {
        self.view()
    }
}

impl StrMap {
    pub fn new() -> (r: StrMap)
        ensures
            r@ == Seq::<(Seq<char>, Seq<char>)>::empty(),
    {
        let r = StrMap { entries: Vec::new() };
        assert(r@ =~= Seq::<(Seq<char>, Seq<char>)>::empty());
        r
    }

    pub fn len(&self) -> (r: usize)
        ensures
            r == self@.len(),
    {
        self.entries.len()
    }

    /// The entry at position `i`, as cloned strings.
    pub fn entry_at(&self, i: usize) -> (r: (String, String))
        requires
            i < self@.len(),
        ensures
            r.0@ == self@[i as int].0,
            r.1@ == self@[i as int].1,
    {
        let p = &self.entries[i];
        (p.0.clone(), p.1.clone())
    }

    pub fn get(&self, k: &str) -> (r: Option<String>)
        ensures
            match r {
                Some(v) => assoc_get(self@, k@) == Some(v@),
                None => assoc_get(self@, k@) is None,
            },
    {
        let n = self.entries.len();
        let mut i: usize = 0;
        assert(self@.subrange(0, n as int) =~= self@);
        while i < n
            invariant
                n == self@.len(),
                i <= n,
                assoc_get(self@, k@) == assoc_get(self@.subrange(i as int, n as int), k@),
            decreases n - i,
        {
            let ghost tail = self@.subrange(i as int, n as int);
            assert(tail[0] == self@[i as int]);
            if str_eq(self.entries[i].0.as_str(), k) {
                return Some(self.entries[i].1.clone());
            }
            assert(tail.drop_first() =~= self@.subrange(i + 1, n as int));
            i += 1;
        }
        assert(self@.subrange(n as int, n as int) =~= Seq::<(Seq<char>, Seq<char>)>::empty());
        None
    }

    pub fn contains_key(&self, k: &str) -> (r: bool)
        ensures
            r == (assoc_get(self@, k@) is Some),
    {
        self.get(k).is_some()
    }

    pub fn insert(&mut self, k: String, v: String)
        ensures
            final(self)@ == assoc_put(old(self)@, k@, v@),
    {
        let ghost gk = k@;
        let ghost gv = v@;
        let n = self.entries.len();
        let mut i: usize = 0;
        while i < n
            invariant
                n == self@.len(),
                i <= n,
                *self == *old(self),
                k@ == gk,
                v@ == gv,
                forall|j: int| 0 <= j < i ==> self@[j].0 != gk,
            decreases n - i,
        {
            if str_eq(self.entries[i].0.as_str(), k.as_str()) {
                self.entries[i] = (k, v);
                proof {
                    lemma_put_at(old(self)@, gk, gv, i as int);
                    assert(self@ =~= old(self)@.update(i as int, (gk, gv)));
                }
                return ;
            }
            i += 1;
        }
        self.entries.push((k, v));
        proof {
            lemma_put_append(old(self)@, gk, gv);
            assert(self@ =~= old(self)@ + seq![(gk, gv)]);
        }
    }

    /// Puts every entry of `other` into `self`, in `other`'s order.
    pub fn extend_from(&mut self, other: &StrMap)
        ensures
            final(self)@ == assoc_put_all(old(self)@, other@),
    {
        let n = other.entries.len();
        let mut i: usize = 0;
        assert(other@.subrange(0, n as int) =~= other@);
        while i < n
            invariant
                n == other@.len(),
                i <= n,
                assoc_put_all(self@, other@.subrange(i as int, n as int)) == assoc_put_all(
                    old(self)@,
                    other@,
                ),
            decreases n - i,
        {
            let ghost tail = other@.subrange(i as int, n as int);
            assert(tail[0] == other@[i as int]);
            assert(tail.drop_first() =~= other@.subrange(i + 1, n as int));
            let (k, v) = other.entry_at(i);
            self.insert(k, v);
            i += 1;
        }
        assert(other@.subrange(n as int, n as int) =~= Seq::<(Seq<char>, Seq<char>)>::empty());
    }

    /// A copy with the same entries.
    pub fn duplicate(&self) -> (r: StrMap)
        ensures
            r@ == self@,
    {
        let n = self.entries.len();
        let mut entries: Vec<(String, String)> = Vec::new();
        let mut i: usize = 0;
        while i < n
            invariant
                n == self@.len(),
                i <= n,
                entries.deep_view() =~= self@.subrange(0, i as int),
            decreases n - i,
        {
            let a = self.entries[i].0.clone();
            let b = self.entries[i].1.clone();
            let ghost pre = entries@;
            proof {
                assert(entries.deep_view().len() == i);
                assert(pre.len() == i);
            }
            entries.push((a, b));
            proof {
                assert(a == self.entries@[i as int].0);
                assert(b == self.entries@[i as int].1);
                assert(entries@ == pre.push((a, b)));
                assert(entries.deep_view().len() == i + 1);
                assert forall|j: int| 0 <= j < i + 1 implies entries.deep_view()[j] == self@.subrange(0, i + 1)[j] by {
                    assert(entries.deep_view()[j] == entries@[j].deep_view());
                    if j < i {
                        assert(entries@[j] == pre[j]);
                        assert(pre[j].deep_view() == self@.subrange(0, i as int)[j]);
                    } else {
                        assert(entries@[j] == (a, b));
                        assert((a, b).deep_view() == (a@, b@));
                        assert(self@[j] == self.entries@[j].deep_view());
                    }
                }
                assert(entries.deep_view() =~= self@.subrange(0, i + 1));
            }
            i += 1;
        }
        let r = StrMap { entries };
        assert(r@ =~= self@);
        r
    }
}

/// View of a string map: its entries in order.
pub type Entries = Seq<(Seq<char>, Seq<char>)>;

/// View of a sequence of records, each a string map.
pub type RecordsV = Seq<Entries>;

/// A string-keyed map of record sequences, the iteration sources that a
/// `foreach` block or a listing function draws from.
pub struct SeqMap {
    entries: Vec<(String, Vec<StrMap>)>,
}

impl View for SeqMap {
    type V = Seq<(Seq<char>, RecordsV)>;

    closed spec fn view(&self) -> Seq<(Seq<char>, RecordsV)> {
        self.entries.deep_view()
    }
}

impl DeepView for SeqMap {
    type V = Seq<(Seq<char>, RecordsV)>;

    open spec fn deep_view(&self) -> Seq<(Seq<char>, RecordsV)> {
        self.view()
    }
}


/// Pushing onto a vector pushes the element's deep view onto the vector's.
pub proof fn lemma_deep_view_push<T: DeepView>(pre: Vec<T>, post: Vec<T>, x: T)
    requires
        post@ == pre@.push(x),
    ensures
        post.deep_view() == pre.deep_view().push(x.deep_view()),
{
    assert forall|j: int| 0 <= j < post@.len() implies post.deep_view()[j] == pre.deep_view().push(
        x.deep_view(),
    )[j] by {
        assert(post.deep_view()[j] == post@[j].deep_view());
        if j < pre@.len() {
            assert(post@[j] == pre@[j]);
            assert(pre.deep_view()[j] == pre@[j].deep_view());
        } else {
            assert(post@[j] == x);
        }
    }
    assert(post.deep_view() =~= pre.deep_view().push(x.deep_view()));
}


/// Inserting into a vector inserts the element's deep view into the
/// vector's.
pub proof fn lemma_deep_view_insert<T: DeepView>(pre: Vec<T>, post: Vec<T>, i: int, x: T)
    requires
        0 <= i <= pre@.len(),
        post@ == pre@.insert(i, x),
    ensures
        post.deep_view() == pre.deep_view().insert(i, x.deep_view()),
{
    assert forall|j: int| 0 <= j < post@.len() implies post.deep_view()[j]
        == pre.deep_view().insert(i, x.deep_view())[j] by {
        assert(post.deep_view()[j] == post@[j].deep_view());
        if j < i {
            assert(post@[j] == pre@[j]);
            assert(pre.deep_view()[j] == pre@[j].deep_view());
        } else if j == i {
            assert(post@[j] == x);
        } else {
            assert(post@[j] == pre@[j - 1]);
            assert(pre.deep_view()[j - 1] == pre@[j - 1].deep_view());
        }
    }
    assert(post.deep_view() =~= pre.deep_view().insert(i, x.deep_view()));
}

/// A copy of a record sequence with the same view.
pub fn duplicate_records(records: &Vec<StrMap>) -> (r: Vec<StrMap>)
    ensures
        r.deep_view() == records.deep_view(),
{
    let n = records.len();
    let mut r: Vec<StrMap> = Vec::new();
    let mut i: usize = 0;
    while i < n
        invariant
            n == records.len(),
            i <= n,
            r.deep_view() =~= records.deep_view().subrange(0, i as int),
        decreases n - i,
    {
        let m = records[i].duplicate();
        let ghost pre = r;
        let ghost gm = m;
        r.push(m);
        proof {
            lemma_deep_view_push(pre, r, gm);
            assert(gm.deep_view() == records.deep_view()[i as int]);
            assert(r.deep_view() =~= records.deep_view().subrange(0, i + 1));
        }
        i += 1;
    }
    assert(r.deep_view() =~= records.deep_view());
    r
}

impl SeqMap {
    pub fn new() -> (r: SeqMap)
        ensures
            r@ == Seq::<(Seq<char>, RecordsV)>::empty(),
    {
        let r = SeqMap { entries: Vec::new() };
        assert(r@ =~= Seq::<(Seq<char>, RecordsV)>::empty());
        r
    }

    pub fn get(&self, k: &str) -> (r: Option<Vec<StrMap>>)
        ensures
            match r {
                Some(v) => assoc_get(self@, k@) == Some(v.deep_view()),
                None => assoc_get(self@, k@) is None,
            },
    {
        let n = self.entries.len();
        let mut i: usize = 0;
        assert(self@.subrange(0, n as int) =~= self@);
        while i < n
            invariant
                n == self@.len(),
                n == self.entries.len(),
                i <= n,
                assoc_get(self@, k@) == assoc_get(self@.subrange(i as int, n as int), k@),
            decreases n - i,
        {
            let ghost tail = self@.subrange(i as int, n as int);
            assert(tail[0] == self@[i as int]);
            if str_eq(self.entries[i].0.as_str(), k) {
                let v = duplicate_records(&self.entries[i].1);
                return Some(v);
            }
            assert(tail.drop_first() =~= self@.subrange(i + 1, n as int));
            i += 1;
        }
        assert(self@.subrange(n as int, n as int) =~= Seq::<(Seq<char>, RecordsV)>::empty());
        None
    }

    pub fn insert(&mut self, k: String, v: Vec<StrMap>)
        ensures
            final(self)@ == assoc_put(old(self)@, k@, v.deep_view()),
    {
        let ghost gk = k@;
        let ghost gv = v.deep_view();
        let n = self.entries.len();
        let mut i: usize = 0;
        while i < n
            invariant
                n == self@.len(),
                n == self.entries.len(),
                i <= n,
                *self == *old(self),
                k@ == gk,
                v.deep_view() == gv,
                forall|j: int| 0 <= j < i ==> self@[j].0 != gk,
            decreases n - i,
        {
            assert(self@[i as int].0 == self.entries@[i as int].0.deep_view());
            if str_eq(self.entries[i].0.as_str(), k.as_str()) {
                self.entries[i] = (k, v);
                proof {
                    lemma_put_at(old(self)@, gk, gv, i as int);
                    assert(self@ =~= old(self)@.update(i as int, (gk, gv)));
                }
                return ;
            }
            i += 1;
        }
        self.entries.push((k, v));
        proof {
            lemma_put_append(old(self)@, gk, gv);
            assert(self@ =~= old(self)@ + seq![(gk, gv)]);
        }
    }

    /// A copy with the same entries.
    pub fn duplicate(&self) -> (r: SeqMap)
        ensures
            r@ == self@,
    {
        let n = self.entries.len();
        let mut entries: Vec<(String, Vec<StrMap>)> = Vec::new();
        let mut i: usize = 0;
        while i < n
            invariant
                n == self@.len(),
                n == self.entries.len(),
                i <= n,
                entries.deep_view() =~= self@.subrange(0, i as int),
            decreases n - i,
    {
            let k = self.entries[i].0.clone();
            let v = duplicate_records(&self.entries[i].1);
            let ghost pre = entries;
            let ghost gx = (k, v);
            entries.push((k, v));
            proof {
                lemma_deep_view_push(pre, entries, gx);
                assert(gx.deep_view() == self@[i as int]);
                assert(entries.deep_view() =~= self@.subrange(0, i + 1));
            }
            i += 1;
        }
        let r = SeqMap { entries };
        assert(r@ =~= self@);
        r
    }
}

/// Replacing the first matching entry in place realizes `assoc_put` when the
/// key occurs first at position `i`.
pub proof fn lemma_put_at<V>(entries: Seq<(Seq<char>, V)>, k: Seq<char>, v: V, i: int)
    requires
        0 <= i < entries.len(),
        entries[i].0 == k,
        forall|j: int| 0 <= j < i ==> entries[j].0 != k,
    ensures
        assoc_put(entries, k, v) == entries.update(i, (k, v)),
    decreases entries.len(),
{
    if i == 0 {
        assert(assoc_put(entries, k, v) == seq![(k, v)] + entries.drop_first());
        assert(seq![(k, v)] + entries.drop_first() =~= entries.update(0, (k, v)));
    } else {
        assert(entries.drop_first()[i - 1].0 == k);
        lemma_put_at(entries.drop_first(), k, v, i - 1);
        assert(seq![entries[0]] + entries.drop_first().update(i - 1, (k, v)) =~= entries.update(
            i,
            (k, v),
        ));
    }
}

/// Appending realizes `assoc_put` when the key is absent.
pub proof fn lemma_put_append<V>(entries: Seq<(Seq<char>, V)>, k: Seq<char>, v: V)
    requires
        forall|j: int| 0 <= j < entries.len() ==> entries[j].0 != k,
    ensures
        assoc_put(entries, k, v) == entries + seq![(k, v)],
    decreases entries.len(),
{
    if entries.len() == 0 {
        assert(assoc_put(entries, k, v) =~= entries + seq![(k, v)]);
    } else {
        lemma_put_append(entries.drop_first(), k, v);
        assert(seq![entries[0]] + (entries.drop_first() + seq![(k, v)]) =~= entries + seq![
            (k, v),
        ]);
    }
}


/// A string-keyed map of arena positions, used for the layout cache.
pub struct IdMap {
    entries: Vec<(String, usize)>,
}

impl View for IdMap {
    type V = Seq<(Seq<char>, usize)>;

    closed spec fn view(&self) -> Seq<(Seq<char>, usize)> {
        self.entries.deep_view()
    }
}

impl IdMap {
    pub fn new() -> (r: IdMap)
        ensures
            r@ == Seq::<(Seq<char>, usize)>::empty(),
    {
        let r = IdMap { entries: Vec::new() };
        assert(r@ =~= Seq::<(Seq<char>, usize)>::empty());
        r
    }

    pub fn get(&self, k: &str) -> (r: Option<usize>)
        ensures
            r == assoc_get(self@, k@),
    {
        let n = self.entries.len();
        let mut i: usize = 0;
        assert(self@.subrange(0, n as int) =~= self@);
        while i < n
            invariant
                n == self@.len(),
                n == self.entries.len(),
                i <= n,
                assoc_get(self@, k@) == assoc_get(self@.subrange(i as int, n as int), k@),
            decreases n - i,
        {
            let ghost tail = self@.subrange(i as int, n as int);
            assert(tail[0] == self@[i as int]);
            if str_eq(self.entries[i].0.as_str(), k) {
                return Some(self.entries[i].1);
            }
            assert(tail.drop_first() =~= self@.subrange(i + 1, n as int));
            i += 1;
        }
        assert(self@.subrange(n as int, n as int) =~= Seq::<(Seq<char>, usize)>::empty());
        None
    }

    pub fn insert(&mut self, k: String, v: usize)
        ensures
            final(self)@ == assoc_put(old(self)@, k@, v),
    {
        let ghost gk = k@;
        let n = self.entries.len();
        let mut i: usize = 0;
        while i < n
            invariant
                n == self@.len(),
                n == self.entries.len(),
                i <= n,
                *self == *old(self),
                k@ == gk,
                forall|j: int| 0 <= j < i ==> self@[j].0 != gk,
            decreases n - i,
        {
            assert(self@[i as int].0 == self.entries@[i as int].0.deep_view());
            if str_eq(self.entries[i].0.as_str(), k.as_str()) {
                self.entries[i] = (k, v);
                proof {
                    lemma_put_at(old(self)@, gk, v, i as int);
                    assert(self@ =~= old(self)@.update(i as int, (gk, v)));
                }
                return ;
            }
            i += 1;
        }
        let ghost pre = self.entries;
        let ghost gx = (k, v);
        self.entries.push((k, v));
        proof {
            lemma_deep_view_push(pre, self.entries, gx);
            lemma_put_append(old(self)@, gk, v);
            assert(self@ =~= old(self)@ + seq![(gk, v)]);
        }
    }
}

/// Builds a string map by putting a list of pairs into an empty map in order.
pub fn strmap_from_pairs(pairs: &Vec<(String, String)>) -> (r: StrMap)
    ensures
        r@ == assoc_put_all(Seq::<(Seq<char>, Seq<char>)>::empty(), pairs.deep_view()),
{
    let mut r = StrMap::new();
    let n = pairs.len();
    let mut i: usize = 0;
    assert(pairs.deep_view().subrange(0, n as int) =~= pairs.deep_view());
    while i < n
        invariant
            n == pairs@.len(),
            i <= n,
            assoc_put_all(r@, pairs.deep_view().subrange(i as int, n as int)) == assoc_put_all(
                Seq::<(Seq<char>, Seq<char>)>::empty(),
                pairs.deep_view(),
            ),
        decreases n - i,
    {
        let ghost tail = pairs.deep_view().subrange(i as int, n as int);
        assert(tail[0] == pairs.deep_view()[i as int]);
        assert(tail.drop_first() =~= pairs.deep_view().subrange(i + 1, n as int));
        let k = pairs[i].0.clone();
        let v = pairs[i].1.clone();
        assert(k@ == pairs.deep_view()[i as int].0 && v@ == pairs.deep_view()[i as int].1);
        r.insert(k, v);
        i += 1;
    }
    assert(pairs.deep_view().subrange(n as int, n as int) =~= Seq::<
        (Seq<char>, Seq<char>),
    >::empty());
    r
}

} // verus!

