//! A map from text keys to values, held as a vector in the order of the keys.

use vstd::arithmetic::logarithm::*;
use vstd::arithmetic::power2::*;
use vstd::prelude::*;
use vstd::string::*;

use crate::text::{
    has_prefix, lemma_text_less_irreflexive, lemma_text_less_transitive, place, starts_with_text,
    text_less, Place,
};

verus! {

/// A map from text keys to values. The entries stand in ascending order of
/// their keys, each key once.
pub struct KeyMap<V> {
    entries: Vec<(String, V)>,
}

/// The keys of entries, in their order.
pub open spec fn keys_of<V>(entries: Seq<(String, V)>) -> Seq<Seq<char>> {
    entries.map_values(|e: (String, V)| e.0@)
}

/// The keys are in strictly ascending order.
pub open spec fn ascending(keys: Seq<Seq<char>>) -> bool {
    forall|i: int, j: int| 0 <= i < j < keys.len() ==> text_less(#[trigger] keys[i], #[trigger] keys[j])
}

/// The map that entries with different keys denote.
pub open spec fn map_of<V>(entries: Seq<(String, V)>) -> Map<Seq<char>, V> {
    Map::new(
        |k: Seq<char>| keys_of(entries).contains(k),
        |k: Seq<char>| entries[keys_of(entries).index_of(k)].1,
    )
}

/// Some entry has the key.
pub open spec fn all_has<V>(entries: Seq<(String, V)>, key: Seq<char>) -> bool {
    exists|i: int| 0 <= i < entries.len() && (#[trigger] entries[i]).0@ == key
}

/// How the entries change where a value is set: the entry of the key is
/// replaced, or a new one inserted.
pub open spec fn entry_set<V>(before: Seq<(String, V)>, after: Seq<(String, V)>, key: Seq<char>, value: V) -> bool {
    exists|at: int|
        {
            let e = #[trigger] after[at];
            &&& e.0@ == key
            &&& e.1 == value
            &&& if all_has(before, key) {
                0 <= at < before.len() && before[at].0@ == key && after == before.update(at, e)
            } else {
                0 <= at <= before.len() && after == before.insert(at, e)
            }
        }
}

/// How the entries change where a key is taken out.
pub open spec fn entry_dropped<V>(before: Seq<(String, V)>, after: Seq<(String, V)>, key: Seq<char>) -> bool {
    if all_has(before, key) {
        exists|at: int|
            0 <= at < before.len() && (#[trigger] before[at]).0@ == key && after == before.remove(at)
    } else {
        after == before
    }
}

/// A map without the keys that start with `prefix`.
pub open spec fn without_below<V>(m: Map<Seq<char>, V>, prefix: Seq<char>) -> Map<Seq<char>, V> {
    Map::new(|k: Seq<char>| m.dom().contains(k) && !has_prefix(k, prefix), |k: Seq<char>| m[k])
}

/// The most comparisons that a search among `n` keys takes: the number of
/// bits of `n`.
pub open spec fn search_bound(n: nat) -> nat {
    if n == 0 {
        0
    } else {
        (log(2, n as int) + 1) as nat
    }
}

proof fn lemma_search_bound(steps: nat, n: nat)
    requires
        steps > 0 ==> pow2((steps - 1) as nat) <= n,
    ensures
        steps <= search_bound(n),
{
    if steps > 0 {
        let e = (steps - 1) as nat;
        lemma_pow2_pos(e);
        lemma_pow2(e);
        lemma_log_pow(2, e);
        lemma_log_is_ordered(2, pow2(e) as int, n as int);
    }
}

/// A search in what a machine can hold takes no more than 65 comparisons.
pub proof fn lemma_search_bound_small(n: nat)
    requires
        n <= u64::MAX,
    ensures
        search_bound(n) <= 65,
{
    if n > 0 {
        lemma2_to64();
        lemma_pow2(64);
        lemma_log_pow(2, 64);
        assert(n < pow2(64));
        lemma_log_is_ordered(2, n as int, pow2(64) as int);
        lemma_log_nonnegative(2, n as int);
    }
}

/// Keys in strictly ascending order are different from each other.
pub proof fn lemma_ascending_distinct(keys: Seq<Seq<char>>)
    requires
        ascending(keys),
    ensures
        keys.no_duplicates(),
{
    assert forall|i: int, j: int| 0 <= i < keys.len() && 0 <= j < keys.len() && i != j implies keys[i]
        != keys[j] by {
        if i < j {
            assert(text_less(keys[i], keys[j]));
        } else {
            assert(text_less(keys[j], keys[i]));
        }
        lemma_text_less_irreflexive(keys[i]);
    }
}

/// What the map says of the entry at position `i`.
pub proof fn lemma_map_of_entry<V>(entries: Seq<(String, V)>, i: int)
    requires
        ascending(keys_of(entries)),
        0 <= i < entries.len(),
    ensures
        keys_of(entries)[i] == entries[i].0@,
        map_of(entries).dom().contains(entries[i].0@),
        map_of(entries)[entries[i].0@] == entries[i].1,
{
    let keys = keys_of(entries);
    lemma_ascending_distinct(keys);
    assert(keys[i] == entries[i].0@);
    let k = keys[i];
    assert(keys.contains(k));
    let j = keys.index_of(k);
    assert(keys[j] == k && 0 <= j < keys.len());
    assert(j == i);
}

/// Every key of the map is the key of some entry.
pub proof fn lemma_map_of_key<V>(entries: Seq<(String, V)>, k: Seq<char>) -> (i: int)
    requires
        map_of(entries).dom().contains(k),
    ensures
        0 <= i < entries.len(),
        entries[i].0@ == k,
{
    let keys = keys_of(entries);
    keys.index_of(k)
}

impl<V> KeyMap<V> {
    /// The entries, in the order of their keys.
    pub closed spec fn spec_entries(&self) -> Seq<(String, V)> {
        self.entries@
    }

    /// The entries are in order.
    pub open spec fn wf(&self) -> bool {
        ascending(keys_of(self.spec_entries()))
    }

    /// The map.
    pub open spec fn view(&self) -> Map<Seq<char>, V> {
        map_of(self.spec_entries())
    }

    /// The keys in ascending order.
    pub open spec fn keys(&self) -> Seq<Seq<char>> {
        keys_of(self.spec_entries())
    }

    /// The domain is finite and has as many keys as there are entries.
    pub proof fn lemma_len(&self)
        requires
            self.wf(),
        ensures
            self@.dom().finite(),
            self@.dom().len() == self.spec_entries().len(),
            self@.dom() == self.keys().to_set(),
    {
        lemma_ascending_distinct(self.keys());
        self.keys().unique_seq_to_set();
        assert(self@.dom() =~= self.keys().to_set());
    }

    /// The empty map.
    pub fn new() -> (r: Self)
        ensures
            r.wf(),
            r@ == Map::<Seq<char>, V>::empty(),
            r.spec_entries() == Seq::<(String, V)>::empty(),
    {
        let r = KeyMap { entries: Vec::new() };
        assert(r@ =~= Map::<Seq<char>, V>::empty());
        r
    }

    /// The number of keys.
    pub fn len(&self) -> (n: usize)
        requires
            self.wf(),
        ensures
            n == self@.dom().len(),
            n == self.spec_entries().len(),
    {
        proof {
            self.lemma_len();
        }
        self.entries.len()
    }

    /// Whether the map has no key.
    pub fn is_empty(&self) -> (r: bool)
        requires
            self.wf(),
        ensures
            r == (self@.dom().len() == 0),
            r == (self@ == Map::<Seq<char>, V>::empty()),
    {
        proof {
            self.lemma_len();
            if self.spec_entries().len() == 0 {
                assert(self@ =~= Map::<Seq<char>, V>::empty());
            } else {
                lemma_map_of_entry(self.spec_entries(), 0);
            }
        }
        self.entries.len() == 0
    }

    /// The entry at position `i`, in the order of the keys.
    pub fn entry_at(&self, i: usize) -> (e: &(String, V))
        requires
            self.wf(),
            i < self.spec_entries().len(),
        ensures
            *e == self.spec_entries()[i as int],
            self@.dom().contains(e.0@),
            self@[e.0@] == e.1,
    {
        proof {
            lemma_map_of_entry(self.spec_entries(), i as int);
        }
        &self.entries[i]
    }

    /// Where a key stands, or would be inserted, and how many comparisons it
    /// took to find out: at most the number of bits of the length.
    pub fn search(&self, key: &str) -> (r: (bool, usize, usize))
        requires
            self.wf(),
        ensures
            r.0 == self@.dom().contains(key@),
            r.1 <= self.spec_entries().len(),
            r.0 ==> r.1 < self.spec_entries().len() && self.spec_entries()[r.1 as int].0@ == key@,
            forall|i: int|
                0 <= i < r.1 ==> text_less(#[trigger] self.spec_entries()[i].0@, key@),
            !r.0 ==> forall|i: int|
                r.1 <= i < self.spec_entries().len() ==> text_less(
                    key@,
                    #[trigger] self.spec_entries()[i].0@,
                ),
            r.2 <= search_bound(self.spec_entries().len()),
    {
        let ghost all = self.entries@;
        let ghost keys = keys_of(all);
        let mut lo: usize = 0;
        let mut hi: usize = self.entries.len();
        let mut steps: usize = 0;
        let ghost mut left: nat = pow2(0);
        proof {
            lemma2_to64();
            assert forall|i: int| 0 <= i < all.len() implies keys[i] == #[trigger] all[i].0@ by {}
        }
        while lo < hi
            invariant
                lo <= hi <= all.len() <= usize::MAX,
                all == self.entries@,
                keys == keys_of(all),
                ascending(keys),
                self.wf(),
                forall|i: int| 0 <= i < all.len() ==> keys[i] == #[trigger] all[i].0@,
                forall|i: int| 0 <= i < lo ==> text_less(#[trigger] all[i].0@, key@),
                forall|i: int| hi <= i < all.len() ==> text_less(key@, #[trigger] all[i].0@),
                left == pow2(steps as nat),
                (hi - lo) * left <= all.len(),
                steps > 0 ==> pow2((steps - 1) as nat) <= all.len(),
                steps <= all.len() - (hi - lo),
            decreases hi - lo,
        {
            let mid: usize = lo + (hi - lo) / 2;
            proof {
                assert(left <= (hi - lo) * left) by (nonlinear_arith)
                    requires
                        hi - lo >= 1,
                        left >= 0,
                ;
                assert forall|i: int| 0 <= i < mid implies text_less(#[trigger] all[i].0@, all[mid as int].0@) by {
                    assert(text_less(keys[i], keys[mid as int]));
                }
                assert forall|i: int| mid < i < all.len() implies text_less(all[mid as int].0@, #[trigger] all[i].0@) by {
                    assert(text_less(keys[mid as int], keys[i]));
                }
            }
            let ghost width = hi - lo;
            let ghost before = left;
            steps = steps + 1;
            proof {
                lemma_pow2_unfold(steps as nat);
                left = pow2(steps as nat);
                assert(left == 2 * before);
            }
            match place(self.entries[mid].0.as_str(), key) {
                Place::Same => {
                    proof {
                        lemma_map_of_entry(all, mid as int);
                        lemma_search_bound(steps as nat, all.len());
                    }
                    return (true, mid, steps);
                },
                Place::Before => {
                    proof {
                        assert forall|i: int| 0 <= i < mid + 1 implies text_less(#[trigger] all[i].0@, key@) by {
                            if i < mid {
                                lemma_text_less_transitive(all[i].0@, all[mid as int].0@, key@);
                            }
                        }
                        let rest = hi - (mid + 1);
                        assert(2 * rest <= width);
                        assert(rest * left <= width * before) by (nonlinear_arith)
                            requires
                                2 * rest <= width,
                                left == 2 * before,
                                before >= 0,
                        ;
                    }
                    lo = mid + 1;
                },
                Place::After => {
                    proof {
                        assert forall|i: int| mid <= i < all.len() implies text_less(key@, #[trigger] all[i].0@) by {
                            if i > mid {
                                lemma_text_less_transitive(key@, all[mid as int].0@, all[i].0@);
                            }
                        }
                        let rest = mid - lo;
                        assert(2 * rest <= width);
                        assert(rest * left <= width * before) by (nonlinear_arith)
                            requires
                                2 * rest <= width,
                                left == 2 * before,
                                before >= 0,
                        ;
                    }
                    hi = mid;
                },
            }
        }
        proof {
            if self@.dom().contains(key@) {
                let i = lemma_map_of_key(all, key@);
                lemma_text_less_irreflexive(key@);
                assert(i < lo || hi <= i);
            }
            lemma_search_bound(steps as nat, all.len());
        }
        (false, lo, steps)
    }

    /// Whether the map has the key.
    pub fn contains_key(&self, key: &str) -> (r: bool)
        requires
            self.wf(),
        ensures
            r == self@.dom().contains(key@),
    {
        self.search(key).0
    }

    /// The value of a key.
    pub fn get(&self, key: &str) -> (r: Option<&V>)
        requires
            self.wf(),
        ensures
            r is Some <==> self@.dom().contains(key@),
            r matches Some(v) ==> *v == self@[key@],
    {
        let (found, at, _steps) = self.search(key);
        if found {
            proof {
                lemma_map_of_entry(self.spec_entries(), at as int);
            }
            Some(&self.entries[at].1)
        } else {
            None
        }
    }

    /// Sets the value of a key.
    pub fn insert(&mut self, key: String, value: V) -> (r: Option<V>)
        requires
            old(self).wf(),
        ensures
            final(self).wf(),
            final(self)@ == old(self)@.insert(key@, value),
            r is Some <==> old(self)@.dom().contains(key@),
            r matches Some(v) ==> v == old(self)@[key@],
            entry_set(old(self).spec_entries(), final(self).spec_entries(), key@, value),
    {
        let ghost all = self.entries@;
        let ghost keys = keys_of(all);
        let ghost k = key@;
        let ghost m = self@;
        let (found, at, _steps) = self.search(key.as_str());
        if found {
            proof {
                lemma_map_of_entry(all, at as int);
            }
            self.entries.push((key, value));
            let replaced = self.entries.swap_remove(at);
            proof {
                let after = self.entries@;
                assert(after =~= all.update(at as int, (key, value)));
                assert(keys_of(after) =~= keys);
                assert forall|x: Seq<char>| map_of(after).dom().contains(x) implies map_of(after)[x]
                    == m.insert(k, value)[x] by {
                    let i = lemma_map_of_key(after, x);
                    lemma_map_of_entry(after, i);
                    lemma_map_of_entry(all, i);
                    if i != at {
                        lemma_ascending_distinct(keys);
                        assert(keys[i] != keys[at as int]);
                    }
                }
                assert(map_of(after) =~= m.insert(k, value));
                assert(after == all.update(at as int, after[at as int]));
            }
            Some(replaced.1)
        } else {
            self.entries.insert(at, (key, value));
            proof {
                let after = self.entries@;
                assert(after == all.insert(at as int, (key, value)));
                lemma_inserted(all, at as int, key, value);
                assert(after == all.insert(at as int, after[at as int]));
                if all_has(all, k) {
                    let i = choose|i: int| 0 <= i < all.len() && (#[trigger] all[i]).0@ == k;
                    lemma_map_of_entry(all, i);
                }
            }
            None
        }
    }

    /// Takes a key out.
    pub fn remove(&mut self, key: &str) -> (r: Option<V>)
        requires
            old(self).wf(),
        ensures
            final(self).wf(),
            final(self)@ == old(self)@.remove(key@),
            r is Some <==> old(self)@.dom().contains(key@),
            r matches Some(v) ==> v == old(self)@[key@],
            entry_dropped(old(self).spec_entries(), final(self).spec_entries(), key@),
    {
        let ghost all = self.entries@;
        let ghost m = self@;
        let (found, at, _steps) = self.search(key);
        if found {
            proof {
                lemma_map_of_entry(all, at as int);
            }
            let taken = self.entries.remove(at);
            proof {
                lemma_removed(all, at as int);
            }
            Some(taken.1)
        } else {
            proof {
                assert(m =~= m.remove(key@));
                if all_has(all, key@) {
                    let i = choose|i: int| 0 <= i < all.len() && (#[trigger] all[i]).0@ == key@;
                    lemma_map_of_entry(all, i);
                }
            }
            None
        }
    }

    /// Takes the entry at a position out.
    pub fn remove_at(&mut self, at: usize) -> (e: (String, V))
        requires
            old(self).wf(),
            at < old(self).spec_entries().len(),
        ensures
            final(self).wf(),
            e == old(self).spec_entries()[at as int],
            final(self).spec_entries() == old(self).spec_entries().remove(at as int),
            final(self)@ == old(self)@.remove(e.0@),
            old(self)@.dom().contains(e.0@),
            old(self)@[e.0@] == e.1,
    {
        let ghost all = self.entries@;
        proof {
            lemma_map_of_entry(all, at as int);
            lemma_removed(all, at as int);
        }
        self.entries.remove(at)
    }

    /// Takes out every key that starts with `prefix`.
    pub fn remove_below(&mut self, prefix: &str)
        requires
            old(self).wf(),
        ensures
            final(self).wf(),
            final(self)@ == without_below(old(self)@, prefix@),
    {
        let ghost before = self@;
        let mut i: usize = 0;
        while i < self.entries.len()
            invariant
                i <= self.spec_entries().len(),
                self.wf(),
                without_below(self@, prefix@) == without_below(before, prefix@),
                forall|k: int|
                    0 <= k < i ==> !has_prefix(#[trigger] self.spec_entries()[k].0@, prefix@),
            decreases self.spec_entries().len() - i,
        {
            if starts_with_text(self.entries[i].0.as_str(), prefix) {
                let ghost m = self@;
                let ghost all = self.entries@;
                let gone = self.remove_at(i);
                proof {
                    assert(without_below(m.remove(gone.0@), prefix@) =~= without_below(m, prefix@));
                    assert forall|k: int| 0 <= k < i implies !has_prefix(
                        #[trigger] self.spec_entries()[k].0@,
                        prefix@,
                    ) by {
                        assert(self.spec_entries()[k] == all[k]);
                    }
                }
            } else {
                i = i + 1;
            }
        }
        proof {
            assert forall|k: Seq<char>| self@.dom().contains(k) implies !has_prefix(k, prefix@) by {
                let j = lemma_map_of_key(self.spec_entries(), k);
            }
            assert(without_below(self@, prefix@) =~= self@);
        }
    }

    /// Takes every key out.
    pub fn clear(&mut self)
        ensures
            final(self).wf(),
            final(self)@ == Map::<Seq<char>, V>::empty(),
    {
        self.entries.clear();
        assert(self@ =~= Map::<Seq<char>, V>::empty());
    }
}

proof fn lemma_inserted<V>(all: Seq<(String, V)>, at: int, key: String, value: V)
    requires
        ascending(keys_of(all)),
        0 <= at <= all.len(),
        forall|i: int| 0 <= i < at ==> text_less(#[trigger] all[i].0@, key@),
        forall|i: int| at <= i < all.len() ==> text_less(key@, #[trigger] all[i].0@),
    ensures
        ascending(keys_of(all.insert(at, (key, value)))),
        map_of(all.insert(at, (key, value))) == map_of(all).insert(key@, value),
{
    let after = all.insert(at, (key, value));
    let keys = keys_of(all);
    let nk = keys_of(after);
    let k = key@;
    assert forall|i: int, j: int| 0 <= i < j < nk.len() implies text_less(#[trigger] nk[i], #[trigger] nk[j]) by {
        let oi = if i < at { i } else { i - 1 };
        let oj = if j < at { j } else { j - 1 };
        if i != at {
            assert(after[i] == all[oi]);
            assert(nk[i] == keys[oi]);
        }
        if j != at {
            assert(after[j] == all[oj]);
            assert(nk[j] == keys[oj]);
        }
        if i == at {
            assert(text_less(k, all[oj].0@));
        } else if j == at {
            assert(text_less(all[oi].0@, k));
        }
    }
    assert forall|x: Seq<char>| map_of(after).dom().contains(x) == map_of(all).insert(k, value).dom().contains(x) by {
        if map_of(after).dom().contains(x) {
            let i = lemma_map_of_key(after, x);
            if i < at {
                assert(after[i] == all[i]);
                lemma_map_of_entry(all, i);
            } else if i > at {
                assert(after[i] == all[i - 1]);
                lemma_map_of_entry(all, i - 1);
            }
        }
        if map_of(all).dom().contains(x) {
            let i = lemma_map_of_key(all, x);
            let j = if i < at { i } else { i + 1 };
            assert(after[j] == all[i]);
            lemma_map_of_entry(after, j);
        }
        lemma_map_of_entry(after, at);
    }
    assert forall|x: Seq<char>| map_of(after).dom().contains(x) implies map_of(after)[x] == map_of(all).insert(k, value)[x] by {
        let i = lemma_map_of_key(after, x);
        lemma_map_of_entry(after, i);
        lemma_ascending_distinct(nk);
        if i < at {
            assert(after[i] == all[i]);
            lemma_map_of_entry(all, i);
            assert(nk[i] != nk[at]);
        } else if i > at {
            assert(after[i] == all[i - 1]);
            lemma_map_of_entry(all, i - 1);
            assert(nk[i] != nk[at]);
        }
    }
    assert(map_of(after) =~= map_of(all).insert(k, value));
}

/// Taking an entry out of a sequence takes its key out of the map.
pub proof fn lemma_removed<V>(all: Seq<(String, V)>, at: int)
    requires
        ascending(keys_of(all)),
        0 <= at < all.len(),
    ensures
        ascending(keys_of(all.remove(at))),
        map_of(all.remove(at)) == map_of(all).remove(all[at].0@),
{
    let after = all.remove(at);
    let keys = keys_of(all);
    let nk = keys_of(after);
    let k = all[at].0@;
    lemma_ascending_distinct(keys);
    assert forall|i: int, j: int| 0 <= i < j < nk.len() implies text_less(#[trigger] nk[i], #[trigger] nk[j]) by {
        let oi = if i < at { i } else { i + 1 };
        let oj = if j < at { j } else { j + 1 };
        assert(nk[i] == keys[oi] && nk[j] == keys[oj]);
    }
    assert forall|x: Seq<char>| map_of(after).dom().contains(x) == map_of(all).remove(k).dom().contains(x) by {
        if map_of(after).dom().contains(x) {
            let i = lemma_map_of_key(after, x);
            let o = if i < at { i } else { i + 1 };
            assert(after[i] == all[o]);
            lemma_map_of_entry(all, o);
            assert(keys[o] != keys[at]);
        }
        if map_of(all).dom().contains(x) && x != k {
            let i = lemma_map_of_key(all, x);
            let j = if i < at { i } else { i - 1 };
            assert(after[j] == all[i]);
            lemma_map_of_entry(after, j);
        }
    }
    assert forall|x: Seq<char>| map_of(after).dom().contains(x) implies map_of(after)[x] == map_of(all).remove(k)[x] by {
        let i = lemma_map_of_key(after, x);
        lemma_map_of_entry(after, i);
        let o = if i < at { i } else { i + 1 };
        assert(after[i] == all[o]);
        lemma_map_of_entry(all, o);
    }
    assert(map_of(after) =~= map_of(all).remove(k));
}

} // verus!
