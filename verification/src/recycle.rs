//! The names under which tombstones appear in the recycle bin.

use vstd::prelude::*;
use vstd::string::*;

use crate::keymap::{lemma_map_of_entry, lemma_map_of_key, KeyMap};
use crate::text::same_text;

verus! {

/// The texts that a map of strings holds.
pub open spec fn texts(m: Map<Seq<char>, String>) -> Map<Seq<char>, Seq<char>> {
    Map::new(|k: Seq<char>| m.dom().contains(k), |k: Seq<char>| m[k]@)
}

pub proof fn lemma_texts_insert(m: Map<Seq<char>, String>, k: Seq<char>, v: String)
    ensures
        texts(m.insert(k, v)) == texts(m).insert(k, v@),
{
    assert(texts(m.insert(k, v)) =~= texts(m).insert(k, v@));
}

pub proof fn lemma_texts_remove(m: Map<Seq<char>, String>, k: Seq<char>)
    ensures
        texts(m.remove(k)) == texts(m).remove(k),
{
    assert(texts(m.remove(k)) =~= texts(m).remove(k));
}

/// Names of the recycle bin and tombstones, in both directions.
pub struct RecycleNameIndex {
    /// From the name of an entry to the key of its tombstone.
    pub by_name: KeyMap<String>,
    /// From the deleted key to the name of its entry.
    pub by_key: KeyMap<String>,
}

/// What the index of names holds.
#[verifier::ext_equal]
pub struct NamesView {
    pub by_name: Map<Seq<char>, Seq<char>>,
    pub by_key: Map<Seq<char>, Seq<char>>,
}

impl NamesView {
    pub open spec fn empty() -> NamesView {
        NamesView { by_name: Map::empty(), by_key: Map::empty() }
    }

    /// A name was given to a tombstone: it replaces what the name or the key
    /// stood for.
    pub open spec fn named(self, tomb_key: Seq<char>, key: Seq<char>, name: Seq<char>) -> NamesView {
        NamesView { by_name: self.by_name.insert(name, tomb_key), by_key: self.by_key.insert(key, name) }
    }

    /// A name was read from a tombstone: it is taken unless the key has one.
    pub open spec fn learned(self, tomb_key: Seq<char>, key: Seq<char>, name: Seq<char>) -> NamesView {
        if self.by_key.dom().contains(key) {
            self
        } else {
            self.named(tomb_key, key, name)
        }
    }

    /// Names were read from tombstones, one after the other.
    pub open spec fn learned_all(self, fills: Seq<NameFill>) -> NamesView
        decreases fills.len(),
    {
        if fills.len() == 0 {
            self
        } else {
            let f = fills.last();
            self.learned_all(fills.drop_last()).learned(f.tomb_key@, f.key@, f.name@)
        }
    }

    /// Without the names that stand for one of the tombstones.
    pub open spec fn without_tombs(self, tombs: Seq<Seq<char>>) -> NamesView {
        NamesView {
            by_name: Map::new(
                |n: Seq<char>| self.by_name.dom().contains(n) && !tombs.contains(self.by_name[n]),
                |n: Seq<char>| self.by_name[n],
            ),
            ..self
        }
    }

    /// Without the name of a key, in either form of it.
    pub open spec fn without_key(self, key: Seq<char>) -> NamesView {
        NamesView {
            by_key: if key.len() > 0 && key.last() == '/' {
                self.by_key.remove(key)
            } else {
                self.by_key.remove(key).remove(key.push('/'))
            },
            ..self
        }
    }
}

/// A name that was read from a tombstone.
#[derive(Debug)]
pub struct NameFill {
    pub tomb_key: String,
    pub name: String,
    pub key: String,
}

/// The texts of strings.
pub open spec fn string_views(v: Seq<String>) -> Seq<Seq<char>> {
    v.map_values(|s: String| s@)
}

/// Whether a text is among strings.
pub fn contains_string(v: &Vec<String>, s: &str) -> (r: bool)
    ensures
        r == string_views(v@).contains(s@),
{
    let mut i: usize = 0;
    while i < v.len()
        invariant
            i <= v@.len(),
            forall|k: int| 0 <= k < i ==> string_views(v@)[k] != s@,
        decreases v.len() - i,
    {
        assert(string_views(v@)[i as int] == v@[i as int]@);
        if same_text(v[i].as_str(), s) {
            return true;
        }
        i = i + 1;
    }
    false
}

impl RecycleNameIndex {
    pub open spec fn view(&self) -> NamesView {
        NamesView { by_name: texts(self.by_name@), by_key: texts(self.by_key@) }
    }

    pub open spec fn wf(&self) -> bool {
        self.by_name.wf() && self.by_key.wf()
    }

    /// An index of no names.
    pub fn new() -> (r: Self)
        ensures
            r.wf(),
            r@ == NamesView::empty(),
    {
        let r = RecycleNameIndex { by_name: KeyMap::new(), by_key: KeyMap::new() };
        assert(r@ =~= NamesView::empty());
        r
    }

    /// The key of the tombstone that a name stands for.
    pub fn tomb_of(&self, name: &str) -> (r: Option<String>)
        requires
            self.wf(),
        ensures
            r is Some <==> self@.by_name.dom().contains(name@),
            r matches Some(t) ==> t@ == self@.by_name[name@],
    {
        match self.by_name.get(name) {
            Some(t) => Some(t.clone()),
            None => None,
        }
    }

    /// The name under which a deleted key appears.
    pub fn name_of(&self, key: &str) -> (r: Option<String>)
        requires
            self.wf(),
        ensures
            r is Some <==> self@.by_key.dom().contains(key@),
            r matches Some(n) ==> n@ == self@.by_key[key@],
    {
        match self.by_key.get(key) {
            Some(n) => Some(n.clone()),
            None => None,
        }
    }

    /// Gives a name to a tombstone. The result tells whether the name stood
    /// for another one before.
    pub fn assign(&mut self, tomb_key: &str, key: &str, name: &str) -> (replaced: bool)
        requires
            old(self).wf(),
        ensures
            final(self).wf(),
            final(self)@ == old(self)@.named(tomb_key@, key@, name@),
            replaced == (old(self)@.by_name.dom().contains(name@) && old(self)@.by_name[name@]
                != tomb_key@),
    {
        proof {
            assert forall|v: String| #[trigger] texts(self.by_name@.insert(name@, v)) == texts(self.by_name@).insert(name@, v@) by {
                lemma_texts_insert(self.by_name@, name@, v);
            }
            assert forall|v: String| #[trigger] texts(self.by_key@.insert(key@, v)) == texts(self.by_key@).insert(key@, v@) by {
                lemma_texts_insert(self.by_key@, key@, v);
            }
        }
        let previous = self.by_name.insert(name.to_owned(), tomb_key.to_owned());
        let _old = self.by_key.insert(key.to_owned(), name.to_owned());
        match previous {
            Some(p) => !same_text(p.as_str(), tomb_key),
            None => false,
        }
    }

    /// Takes a name that was read from a tombstone, unless the key has one.
    pub fn learn(&mut self, tomb_key: &str, key: &str, name: &str)
        requires
            old(self).wf(),
        ensures
            final(self).wf(),
            final(self)@ == old(self)@.learned(tomb_key@, key@, name@),
    {
        if !self.by_key.contains_key(key) {
            let _ = self.assign(tomb_key, key, name);
        }
    }

    /// Takes names that were read from tombstones.
    pub fn learn_all(&mut self, fills: &Vec<NameFill>)
        requires
            old(self).wf(),
        ensures
            final(self).wf(),
            final(self)@ == old(self)@.learned_all(fills@),
    {
        let ghost base = self@;
        let mut i: usize = 0;
        proof {
            assert(fills@.subrange(0, 0) =~= Seq::<NameFill>::empty());
        }
        while i < fills.len()
            invariant
                i <= fills@.len(),
                self.wf(),
                self@ == base.learned_all(fills@.subrange(0, i as int)),
            decreases fills.len() - i,
        {
            proof {
                let upto = fills@.subrange(0, i + 1);
                assert(upto.drop_last() =~= fills@.subrange(0, i as int));
                assert(upto.last() == fills@[i as int]);
            }
            let f = &fills[i];
            self.learn(f.tomb_key.as_str(), f.key.as_str(), f.name.as_str());
            i = i + 1;
        }
        proof {
            assert(fills@.subrange(0, fills@.len() as int) =~= fills@);
        }
    }

    /// Drops the names that stand for one of the tombstones.
    pub fn forget_tombs(&mut self, tombs: &Vec<String>)
        requires
            old(self).wf(),
        ensures
            final(self).wf(),
            final(self)@ == old(self)@.without_tombs(string_views(tombs@)),
    {
        let ghost gone = string_views(tombs@);
        let ghost before = self@;
        let mut i: usize = 0;
        while i < self.by_name.len()
            invariant
                self.wf(),
                i <= self.by_name.spec_entries().len(),
                gone == string_views(tombs@),
                self@.by_key == before.by_key,
                self@.without_tombs(gone) == before.without_tombs(gone),
                forall|k: int|
                    0 <= k < i ==> !gone.contains((#[trigger] self.by_name.spec_entries()[k]).1@),
            decreases self.by_name.spec_entries().len() - i,
        {
            let hit = contains_string(tombs, self.by_name.entry_at(i).1.as_str());
            if hit {
                let ghost all = self.by_name.spec_entries();
                let ghost m = self.by_name@;
                let e = self.by_name.remove_at(i);
                proof {
                    lemma_texts_remove(m, e.0@);
                    let a = NamesView { by_name: texts(m), by_key: before.by_key };
                    let b = NamesView { by_name: texts(m).remove(e.0@), by_key: before.by_key };
                    assert(a.without_tombs(gone).by_name =~= b.without_tombs(gone).by_name);
                    assert forall|k: int| 0 <= k < i implies !gone.contains(
                        (#[trigger] self.by_name.spec_entries()[k]).1@,
                    ) by {
                        assert(self.by_name.spec_entries()[k] == all[k]);
                    }
                }
            } else {
                i = i + 1;
            }
        }
        proof {
            assert forall|n: Seq<char>| self@.by_name.dom().contains(n) implies !gone.contains(self@.by_name[n]) by {
                let j = lemma_map_of_key(self.by_name.spec_entries(), n);
                lemma_map_of_entry(self.by_name.spec_entries(), j);
            }
            assert(self@.without_tombs(gone).by_name =~= self@.by_name);
        }
    }

    /// Drops the name of a key, in either form of it.
    pub fn forget_key(&mut self, key: &str)
        requires
            old(self).wf(),
        ensures
            final(self).wf(),
            final(self)@ == old(self)@.without_key(key@),
    {
        proof {
            lemma_texts_remove(self.by_key@, key@);
            lemma_texts_remove(self.by_key@.remove(key@), key@.push('/'));
        }
        let _name = self.by_key.remove(key);
        let n: usize = key.unicode_len();
        if !(n > 0 && key.get_char(n - 1) == '/') {
            let mut dir = key.to_owned();
            dir.push('/');
            let _name = self.by_key.remove(dir.as_str());
        }
    }
}

/// A name that was given leads to its tombstone, and the key to the name. All
/// other names and keys stay as they are.
pub proof fn law_named(names: NamesView, tomb_key: Seq<char>, key: Seq<char>, name: Seq<char>, other: Seq<char>)
    ensures
        names.named(tomb_key, key, name).by_name[name] == tomb_key,
        names.named(tomb_key, key, name).by_key[key] == name,
        names.named(tomb_key, key, name).by_name.dom().contains(other) <==> names.by_name.dom().contains(other) || other
            == name,
        names.named(tomb_key, key, name).by_key.dom().contains(other) <==> names.by_key.dom().contains(other) || other
            == key,
        other != name && names.by_name.dom().contains(other) ==> names.named(tomb_key, key, name).by_name[other]
            == names.by_name[other],
        other != key && names.by_key.dom().contains(other) ==> names.named(tomb_key, key, name).by_key[other]
            == names.by_key[other],
{
}

/// A name that is read from a tombstone is taken where the key has none yet; one
/// that was given before holds.
pub proof fn law_learned(names: NamesView, tomb_key: Seq<char>, key: Seq<char>, name: Seq<char>)
    ensures
        names.by_key.dom().contains(key) ==> names.learned(tomb_key, key, name) == names,
        !names.by_key.dom().contains(key) ==> names.learned(tomb_key, key, name).by_name[name] == tomb_key
            && names.learned(tomb_key, key, name).by_key[key] == name,
        names.learned(tomb_key, key, name).by_key.dom().contains(key),
{
}

/// Forgetting tombstones forgets the names that led to them, and no others;
/// forgetting a key forgets the names of both of its forms, and of no other key.
pub proof fn law_forgotten(names: NamesView, tombs: Seq<Seq<char>>, key: Seq<char>, name: Seq<char>, other: Seq<char>)
    requires
        key.len() > 0,
        key.last() != '/',
    ensures
        names.without_tombs(tombs).by_name.dom().contains(name) <==> names.by_name.dom().contains(name) && !tombs.contains(
            names.by_name[name],
        ),
        names.without_tombs(tombs).by_name.dom().contains(name) ==> names.without_tombs(tombs).by_name[name]
            == names.by_name[name],
        names.without_tombs(tombs).by_key == names.by_key,
        names.without_key(key).by_key.dom().contains(other) <==> names.by_key.dom().contains(other) && other != key && other
            != key + seq!['/'],
        names.without_key(key + seq!['/']).by_key.dom().contains(other) <==> names.by_key.dom().contains(other) && other
            != key + seq!['/'],
        names.without_key(key).by_name == names.by_name,
{
    assert(key.push('/') =~= key + seq!['/']);
    assert((key + seq!['/']).last() == '/');
}

/// Every key for which a name was read has one afterwards, and names that were
/// known before stay.
pub proof fn law_learned_all(names: NamesView, fills: Seq<NameFill>, i: int, key: Seq<char>)
    requires
        0 <= i < fills.len(),
    ensures
        names.learned_all(fills).by_key.dom().contains(fills[i].key@),
        names.by_key.dom().contains(key) ==> names.learned_all(fills).by_key.dom().contains(key)
            && names.learned_all(fills).by_key[key] == names.by_key[key],
    decreases fills.len(),
{
    let less = fills.drop_last();
    if less.len() > 0 {
        law_learned_all(names, less, if i < less.len() { i } else { 0 }, key);
        if i < less.len() {
            assert(less[i] == fills[i]);
        }
    } else {
        assert(names.learned_all(less) == names);
    }
    let f = fills.last();
    assert(names.learned_all(fills) == names.learned_all(less).learned(f.tomb_key@, f.key@, f.name@));
}

} // verus!
