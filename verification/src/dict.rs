//! Small association maps with string keys and a deterministic entry order.
//!
//! The planner keys everything by name. A `Dict` stores its entries in
//! insertion order inside a `Vec`, with unique keys as its well-formedness
//! invariant; its view is the sequence of (key view, value view) pairs, so
//! iteration in contracts is a plain fold over that sequence.

use vstd::prelude::*;
use vstd::string::StrSliceExecFns;
use vstd::string::StringExecFns;

use crate::qty::Number;
use crate::qty::NumberType;
use crate::qty::spec_add;

verus! {

/// A clone that provably preserves the view.
pub trait ViewClone: View + Sized {
    fn clone_view(&self) -> (r: Self)
        ensures
            r@ == self@,
    ;
}

impl ViewClone for String {
    fn clone_view(&self) -> (r: Self) {
        self.clone()
    }
}

impl<T: NumberType> ViewClone for Number<T> {
    fn clone_view(&self) -> (r: Self) {
        *self
    }
}

/// Character-for-character string equality.
pub fn str_eq(a: &str, b: &str) -> (r: bool)
    ensures
        r == (a@ == b@),
{
    let alen = a.unicode_len();
    let blen = b.unicode_len();
    if alen != blen {
        return false;
    }
    let mut i: usize = 0;
    while i < alen
        invariant
            alen == a@.len(),
            blen == b@.len(),
            alen == blen,
            i <= alen,
            forall|j: int| 0 <= j < i ==> a@[j] == b@[j],
        decreases alen - i,
    {
        if a.get_char(i) != b.get_char(i) {
            return false;
        }
        i += 1;
    }
    proof {
        assert(a@ =~= b@);
    }
    true
}

/// Whether some entry of `s` carries key `k`.
pub open spec fn dict_has<W>(s: Seq<(Seq<char>, W)>, k: Seq<char>) -> bool {
    exists|i: int| 0 <= i < s.len() && s[i].0 == k
}

/// The index of the entry carrying key `k` (unique when the keys are unique).
pub open spec fn dict_idx<W>(s: Seq<(Seq<char>, W)>, k: Seq<char>) -> int {
    choose|i: int| 0 <= i < s.len() && s[i].0 == k
}

/// The value stored under key `k`, if any.
pub open spec fn dict_get<W>(s: Seq<(Seq<char>, W)>, k: Seq<char>) -> Option<W> {
    if dict_has(s, k) {
        Some(s[dict_idx(s, k)].1)
    } else {
        None
    }
}

/// Storing `v` under key `k`: update the entry in place if the key is
/// present, append a new entry otherwise.
pub open spec fn dict_set<W>(s: Seq<(Seq<char>, W)>, k: Seq<char>, v: W) -> Seq<(Seq<char>, W)> {
    if dict_has(s, k) {
        s.update(dict_idx(s, k), (k, v))
    } else {
        s.push((k, v))
    }
}

/// An entry of `dict_set(s, k, v)` is the new entry or the old entry at the
/// same position.
pub proof fn lemma_dict_set_element<W>(s: Seq<(Seq<char>, W)>, k: Seq<char>, v: W, j: int)
    requires
        0 <= j < dict_set(s, k, v).len(),
    ensures
        dict_set(s, k, v)[j] == (k, v) || (0 <= j < s.len() && dict_set(s, k, v)[j] == s[j]),
{
}

/// After `dict_set(s, k, v)`, key `k` is present.
pub proof fn lemma_dict_set_has<W>(s: Seq<(Seq<char>, W)>, k: Seq<char>, v: W)
    ensures
        dict_has(dict_set(s, k, v), k),
{
    if dict_has(s, k) {
        let i = dict_idx(s, k);
        assert(dict_set(s, k, v)[i].0 == k);
    } else {
        assert(dict_set(s, k, v)[s.len() as int].0 == k);
    }
}

/// `dict_set` keeps every other present key present.
pub proof fn lemma_dict_set_keeps<W>(s: Seq<(Seq<char>, W)>, k: Seq<char>, v: W, k2: Seq<char>)
    requires
        dict_has(s, k2),
    ensures
        dict_has(dict_set(s, k, v), k2),
{
    if k2 == k {
        lemma_dict_set_has(s, k, v);
    } else {
        let j = choose|j: int| 0 <= j < s.len() && s[j].0 == k2;
        if dict_has(s, k) {
            let i = dict_idx(s, k);
            if j == i {
                assert(s[i].0 == k);
            } else {
                assert(dict_set(s, k, v)[j].0 == k2);
            }
        } else {
            assert(dict_set(s, k, v)[j].0 == k2);
        }
    }
}

/// Removing the entry under key `k`, if any.
pub open spec fn dict_remove<W>(s: Seq<(Seq<char>, W)>, k: Seq<char>) -> Seq<(Seq<char>, W)> {
    if dict_has(s, k) {
        s.remove(dict_idx(s, k))
    } else {
        s
    }
}

/// Entry sequences with pairwise distinct keys.
pub open spec fn dict_keys_unique<W>(s: Seq<(Seq<char>, W)>) -> bool {
    forall|i: int, j: int| 0 <= i < j < s.len() ==> s[i].0 != s[j].0
}

/// Adding `v` to the amount under key `k`: increase a present amount
/// (saturating) or append a new entry.
pub open spec fn dict_add(s: Seq<(Seq<char>, int)>, k: Seq<char>, v: int) -> Seq<(Seq<char>, int)> {
    if dict_has(s, k) {
        s.update(dict_idx(s, k), (k, spec_add(s[dict_idx(s, k)].1, v)))
    } else {
        s.push((k, v))
    }
}

/// An insertion-ordered map from names to values of `V`.
#[derive(Debug)]
pub struct Dict<V> {
    entries: Vec<(String, V)>,
}

impl<V: View> View for Dict<V> {
    type V = Seq<(Seq<char>, V::V)>;

    closed spec fn view(&self) -> Seq<(Seq<char>, V::V)> {
        self.entries@.map_values(|p: (String, V)| (p.0@, p.1@))
    }
}

impl<V: View> Dict<V> {
    /// The keys of this dictionary are pairwise distinct.
    pub open spec fn wf(&self) -> bool {
        dict_keys_unique(self@)
    }

    /// An empty dictionary.
    pub fn new() -> (r: Self)
        ensures
            r@ =~= Seq::<(Seq<char>, V::V)>::empty(),
            r.wf(),
    {
        Dict { entries: Vec::new() }
    }

    /// The number of entries.
    pub fn len(&self) -> (r: usize)
        ensures
            r == self@.len(),
    {
        self.entries.len()
    }

    /// The key of the entry at position `i`.
    pub fn key_at(&self, i: usize) -> (r: &String)
        requires
            i < self@.len(),
        ensures
            r@ == self@[i as int].0,
    {
        &self.entries[i].0
    }

    /// The value of the entry at position `i`.
    pub fn val_at(&self, i: usize) -> (r: &V)
        requires
            i < self@.len(),
        ensures
            r@ == self@[i as int].1,
    {
        &self.entries[i].1
    }

    /// The position of the entry carrying key `k`, if any.
    pub fn find(&self, k: &str) -> (r: Option<usize>)
        ensures
            match r {
                Some(i) => i < self@.len() && self@[i as int].0 == k@,
                None => !dict_has(self@, k@),
            },
    {
        let n = self.entries.len();
        let mut i: usize = 0;
        while i < n
            invariant
                n == self@.len(),
                i <= n,
                forall|j: int| 0 <= j < i ==> self@[j].0 != k@,
            decreases n - i,
        {
            if str_eq(self.entries[i].0.as_str(), k) {
                return Some(i);
            }
            i += 1;
        }
        None
    }

    /// Whether key `k` is present.
    pub fn contains(&self, k: &str) -> (r: bool)
        ensures
            r == dict_has(self@, k@),
    {
        self.find(k).is_some()
    }

    /// A reference to the value under key `k`, if any.
    pub fn get(&self, k: &str) -> (r: Option<&V>)
        requires
            self.wf(),
        ensures
            match r {
                Some(v) => dict_get(self@, k@) == Some(v@),
                None => dict_get(self@, k@) is None,
            },
    {
        match self.find(k) {
            Some(i) => {
                proof {
                    assert(self@[i as int].0 == k@);
                    assert(dict_idx(self@, k@) == i as int);
                }
                Some(&self.entries[i].1)
            },
            None => None,
        }
    }

    /// Store `v` under key `k`: update the entry in place if the key is
    /// present, append a new entry otherwise.
    pub fn set(&mut self, k: &str, v: V)
        requires
            old(self).wf(),
        ensures
            final(self).wf(),
            final(self)@ == dict_set(old(self)@, k@, v@),
    {
        match self.find(k) {
            Some(i) => {
                proof {
                    assert(self@[i as int].0 == k@);
                    assert(dict_idx(self@, k@) == i as int);
                }
                let key = String::from_str(k);
                self.entries.set(i, (key, v));
                proof {
                    assert(self@ =~= old(self)@.update(dict_idx(old(self)@, k@), (k@, v@)));
                }
            },
            None => {
                let key = String::from_str(k);
                self.entries.push((key, v));
                proof {
                    assert(self@ =~= old(self)@.push((k@, v@)));
                }
            },
        }
    }

    /// Remove the entry carrying key `k`, if any.
    pub fn remove(&mut self, k: &str)
        requires
            old(self).wf(),
        ensures
            final(self).wf(),
            final(self)@ == dict_remove(old(self)@, k@),
    {
        match self.find(k) {
            Some(i) => {
                proof {
                    assert(self@[i as int].0 == k@);
                    assert(dict_idx(self@, k@) == i as int);
                }
                self.entries.remove(i);
                proof {
                    assert(self@ =~= old(self)@.remove(dict_idx(old(self)@, k@)));
                }
            },
            None => {
                proof {
                    assert(self@ =~= old(self)@);
                }
            },
        }
    }

    /// Drop every entry.
    pub fn clear(&mut self)
        ensures
            final(self)@ =~= Seq::<(Seq<char>, V::V)>::empty(),
            final(self).wf(),
    {
        self.entries.clear();
    }
}

impl<V: ViewClone> Dict<V> {
    /// A copy of this dictionary with the same entries in the same order.
    pub fn clone_dict(&self) -> (r: Self)
        ensures
            r@ == self@,
    {
        let mut entries: Vec<(String, V)> = Vec::new();
        let n = self.entries.len();
        let mut i: usize = 0;
        while i < n
            invariant
                n == self.entries.len(),
                i <= n,
                entries@.len() == i,
                forall|j: int|
                    0 <= j < i ==> (#[trigger] entries@[j]).0@ == self.entries@[j].0@
                        && entries@[j].1@ == self.entries@[j].1@,
            decreases n - i,
        {
            let pair = &self.entries[i];
            entries.push((pair.0.clone(), pair.1.clone_view()));
            i += 1;
        }
        let r = Dict { entries };
        proof {
            assert(r@ =~= self@);
        }
        r
    }
}

impl<V: ViewClone> ViewClone for Dict<V> {
    fn clone_view(&self) -> (r: Self) {
        self.clone_dict()
    }
}

impl<T: NumberType> Dict<Number<T>> {
    /// Every stored amount lies in the representable range.
    pub proof fn lemma_values_in_range(&self)
        ensures
            forall|i: int| 0 <= i < self@.len() ==> 0 <= (#[trigger] self@[i]).1 <= u64::MAX,
    {
        assert forall|i: int|
            0 <= i < self@.len() implies 0 <= (#[trigger] self@[i]).1 <= u64::MAX by {
            self.entries@[i].1.lemma_in_range();
        }
    }

    /// Add `v` to the amount under key `k` (saturating), appending if absent.
    pub fn add(&mut self, k: &str, v: Number<T>)
        requires
            old(self).wf(),
        ensures
            final(self).wf(),
            final(self)@ == dict_add(old(self)@, k@, v@),
    {
        match self.find(k) {
            Some(i) => {
                proof {
                    assert(self@[i as int].0 == k@);
                    assert(dict_idx(self@, k@) == i as int);
                }
                let sum = self.entries[i].1.add(v);
                let key = String::from_str(k);
                self.entries.set(i, (key, sum));
                proof {
                    assert(self@ =~= dict_add(old(self)@, k@, v@));
                }
            },
            None => {
                let key = String::from_str(k);
                self.entries.push((key, v));
                proof {
                    assert(self@ =~= dict_add(old(self)@, k@, v@));
                }
            },
        }
    }
}

/// An insertion-ordered set of names.
#[derive(Debug)]
pub struct NameSet {
    entries: Vec<String>,
}

impl View for NameSet {
    type V = Seq<Seq<char>>;

    closed spec fn view(&self) -> Seq<Seq<char>> {
        self.entries@.map_values(|s: String| s@)
    }
}

impl ViewClone for NameSet {
    fn clone_view(&self) -> (r: Self) {
        let mut entries: Vec<String> = Vec::new();
        let n = self.entries.len();
        let mut i: usize = 0;
        while i < n
            invariant
                n == self.entries.len(),
                i <= n,
                entries@.len() == i,
                forall|j: int| 0 <= j < i ==> (#[trigger] entries@[j])@ == self.entries@[j]@,
            decreases n - i,
        {
            entries.push(self.entries[i].clone());
            i += 1;
        }
        let r = NameSet { entries };
        proof {
            assert(r@ =~= self@);
        }
        r
    }
}

impl NameSet {
    /// The names of this set are pairwise distinct.
    pub open spec fn wf(&self) -> bool {
        forall|i: int, j: int| 0 <= i < j < self@.len() ==> self@[i] != self@[j]
    }

    /// An empty set.
    pub fn new() -> (r: Self)
        ensures
            r@ =~= Seq::<Seq<char>>::empty(),
            r.wf(),
    {
        NameSet { entries: Vec::new() }
    }

    /// Whether `k` is a member.
    pub fn contains(&self, k: &str) -> (r: bool)
        ensures
            r == self@.contains(k@),
    {
        let n = self.entries.len();
        let mut i: usize = 0;
        while i < n
            invariant
                n == self@.len(),
                i <= n,
                forall|j: int| 0 <= j < i ==> self@[j] != k@,
            decreases n - i,
        {
            if str_eq(self.entries[i].as_str(), k) {
                proof {
                    assert(self@[i as int] == k@);
                }
                return true;
            }
            i += 1;
        }
        false
    }

    /// Insert `k`; members are never duplicated.
    pub fn insert(&mut self, k: &str)
        requires
            old(self).wf(),
        ensures
            final(self).wf(),
            final(self)@ == if old(self)@.contains(k@) {
                old(self)@
            } else {
                old(self)@.push(k@)
            },
            final(self)@.contains(k@),
    {
        if !self.contains(k) {
            let key = String::from_str(k);
            self.entries.push(key);
            proof {
                assert(self@ =~= old(self)@.push(k@));
                assert(self@[self@.len() - 1] == k@);
            }
        }
    }

    /// Remove `k` if it is a member.
    pub fn remove(&mut self, k: &str)
        requires
            old(self).wf(),
        ensures
            final(self).wf(),
            final(self)@ == if old(self)@.contains(k@) {
                old(self)@.remove(choose|i: int|
                    0 <= i < old(self)@.len() && old(self)@[i] == k@)
            } else {
                old(self)@
            },
            !final(self)@.contains(k@),
    {
        let n = self.entries.len();
        let mut i: usize = 0;
        while i < n
            invariant
                self@ == old(self)@,
                old(self).wf(),
                n == self@.len(),
                i <= n,
                forall|j: int| 0 <= j < i ==> self@[j] != k@,
            decreases n - i,
        {
            if str_eq(self.entries[i].as_str(), k) {
                proof {
                    assert(self@[i as int] == k@);
                    assert((choose|j: int| 0 <= j < self@.len() && self@[j] == k@) == i as int);
                }
                self.entries.remove(i);
                proof {
                    assert(self@ =~= old(self)@.remove(i as int));
                    assert forall|j: int| 0 <= j < self@.len() implies self@[j] != k@ by {
                        if j < i {
                            assert(self@[j] == old(self)@[j]);
                        } else {
                            assert(self@[j] == old(self)@[j + 1]);
                        }
                    }
                }
                return;
            }
            i += 1;
        }
    }
}

impl<V: View + Copy> Dict<V> {
    /// A copy of the value under key `k`, if any.
    pub fn get_copied(&self, k: &str) -> (r: Option<V>)
        requires
            self.wf(),
        ensures
            match r {
                Some(v) => dict_has(self@, k@) && v@ == self@[dict_idx(self@, k@)].1,
                None => !dict_has(self@, k@),
            },
    {
        match self.find(k) {
            Some(i) => {
                proof {
                    assert(self@[i as int].0 == k@);
                    assert(dict_idx(self@, k@) == i as int);
                }
                Some(self.entries[i].1)
            },
            None => None,
        }
    }
}

} // verus!
