//! A map from names to values, kept as a list of entries where a later
//! entry for a name shadows an earlier one.

use vstd::prelude::*;

verus! {

/// A map from names to values.
#[derive(Debug, PartialEq, Eq)]
pub struct NameMap<V> {
    entries: Vec<(String, V)>,
}

/// What a list of entries maps each name to: the value of its last entry.
pub open spec fn entries_map<V: View>(es: Seq<(String, V)>) -> Map<Seq<char>, V::V>
    decreases es.len(),
{
    if es.len() == 0 {
        Map::empty()
    } else {
        entries_map(es.drop_last()).insert(es.last().0@, es.last().1@)
    }
}

/// Entry `i` is the last one for its name.
pub open spec fn last_for<V>(es: Seq<(String, V)>, i: int) -> bool {
    &&& 0 <= i < es.len()
    &&& forall|j: int| i < j < es.len() ==> es[j].0@ != es[i].0@
}

/// A name is mapped exactly when some entry has it, and then to the value
/// of its last entry.
pub proof fn lemma_entries_map<V: View>(es: Seq<(String, V)>, k: Seq<char>)
    ensures
        entries_map(es).contains_key(k) <==> exists|i: int| 0 <= i < es.len() && es[i].0@ == k,
        forall|i: int|
            #![trigger last_for(es, i)]
            last_for(es, i) && es[i].0@ == k ==> entries_map(es)[k] == es[i].1@,
    decreases es.len(),
{
    if es.len() > 0 {
        let init = es.drop_last();
        lemma_entries_map(init, k);
        if es.last().0@ != k {
            if exists|i: int| 0 <= i < es.len() && es[i].0@ == k {
                let i = choose|i: int| 0 <= i < es.len() && es[i].0@ == k;
                assert(init[i].0@ == k);
            }
            if exists|i: int| 0 <= i < init.len() && init[i].0@ == k {
                let i = choose|i: int| 0 <= i < init.len() && init[i].0@ == k;
                assert(es[i].0@ == k);
            }
            assert forall|i: int|
                #![trigger last_for(es, i)]
                last_for(es, i) && es[i].0@ == k implies entries_map(es)[k] == es[i].1@ by {
                assert(i < es.len() - 1);
                assert(last_for(init, i));
                assert(init[i] == es[i]);
            }
        } else {
            assert(es[es.len() - 1].0@ == k);
        }
    }
}

/// Changing the value of the last entry for a name changes what the name
/// maps to, and nothing else.
pub proof fn lemma_entries_map_update<V: View>(es: Seq<(String, V)>, i: int, e: (String, V))
    requires
        last_for(es, i),
        e.0@ == es[i].0@,
    ensures
        entries_map(es.update(i, e)) == entries_map(es).insert(e.0@, e.1@),
    decreases es.len(),
{
    let es2 = es.update(i, e);
    if i == es.len() - 1 {
        assert(es2.drop_last() =~= es.drop_last());
        assert(entries_map(es2) =~= entries_map(es).insert(e.0@, e.1@));
    } else {
        let init = es.drop_last();
        assert(last_for(init, i));
        lemma_entries_map_update(init, i, e);
        assert(es2.drop_last() =~= init.update(i, e));
        assert(es.last().0@ != e.0@);
        assert(entries_map(es2) =~= entries_map(es).insert(e.0@, e.1@));
    }
}

/// Two lists of entries with the same names and views map alike.
pub proof fn lemma_entries_map_ext<V: View>(a: Seq<(String, V)>, b: Seq<(String, V)>)
    requires
        a.len() == b.len(),
        forall|i: int| 0 <= i < a.len() ==> #[trigger] a[i].0@ == b[i].0@ && a[i].1@ == b[i].1@,
    ensures
        entries_map(a) == entries_map(b),
    decreases a.len(),
{
    if a.len() > 0 {
        lemma_entries_map_ext(a.drop_last(), b.drop_last());
    }
}

/// The views of a list of names.
pub open spec fn names_of(ss: Seq<String>) -> Seq<Seq<char>> {
    ss.map_values(|s: String| s@)
}

/// The names of the entries from `j` on, each once, from the last entry
/// back.
pub open spec fn suffix_names<V>(es: Seq<(String, V)>, j: int) -> Seq<Seq<char>>
    decreases es.len() - j,
{
    if j < 0 || j >= es.len() {
        Seq::empty()
    } else {
        let r = suffix_names(es, j + 1);
        if r.contains(es[j].0@) {
            r
        } else {
            r.push(es[j].0@)
        }
    }
}

/// The names of the entries from `j` on, each once.
pub proof fn lemma_suffix_names<V>(es: Seq<(String, V)>, j: int)
    requires
        0 <= j <= es.len(),
    ensures
        suffix_names(es, j).no_duplicates(),
        forall|k: Seq<char>|
            #[trigger] suffix_names(es, j).contains(k) <==> exists|m: int|
                j <= m < es.len() && es[m].0@ == k,
    decreases es.len() - j,
{
    if j < es.len() {
        lemma_suffix_names(es, j + 1);
        let r = suffix_names(es, j + 1);
        assert forall|k: Seq<char>|
            #[trigger] suffix_names(es, j).contains(k) <==> exists|m: int|
                j <= m < es.len() && es[m].0@ == k by {
            if suffix_names(es, j).contains(k) && !r.contains(k) {
                assert(k == es[j].0@);
            }
            if exists|m: int| j <= m < es.len() && es[m].0@ == k {
                let m = choose|m: int| j <= m < es.len() && es[m].0@ == k;
                if m > j {
                    assert(r.contains(k));
                    if !r.contains(es[j].0@) {
                        let x = choose|x: int| 0 <= x < r.len() && r[x] == k;
                        assert(r.push(es[j].0@)[x] == k);
                    }
                } else {
                    if !r.contains(es[j].0@) {
                        assert(r.push(es[j].0@)[r.len() as int] == k);
                    }
                }
            }
        }
    }
}

impl<V: View> View for NameMap<V> {
    type V = Map<Seq<char>, V::V>;

    closed spec fn view(&self) -> Map<Seq<char>, V::V> {
        entries_map(self.entries@)
    }
}

impl<V: View> NameMap<V> {
    /// A map with no name in it.
    pub fn new() -> (r: Self)
        ensures
            r@ == Map::<Seq<char>, V::V>::empty(),
    {
        NameMap { entries: Vec::new() }
    }

    /// The position of the last entry for `key`, if there is one.
    fn position(&self, key: &String) -> (r: Option<usize>)
        ensures
            r matches Some(i) ==> last_for(self.entries@, i as int) && self.entries@[i as int].0@
                == key@,
            r is None ==> !self@.contains_key(key@),
    {
        let mut j: usize = self.entries.len();
        while j > 0
            invariant
                j <= self.entries.len(),
                forall|m: int| j <= m < self.entries.len() ==> self.entries@[m].0@ != key@,
            decreases j,
        {
            j -= 1;
            if self.entries[j].0 == *key {
                return Some(j);
            }
        }
        proof {
            lemma_entries_map(self.entries@, key@);
        }
        None
    }

    /// Whether `key` is mapped.
    pub fn contains_key(&self, key: &String) -> (r: bool)
        ensures
            r == self@.contains_key(key@),
    {
        proof {
            lemma_entries_map(self.entries@, key@);
        }
        self.position(key).is_some()
    }

    /// The value of `key`, if it is mapped.
    pub fn get(&self, key: &String) -> (r: Option<&V>)
        ensures
            r matches Some(v) ==> self@.contains_key(key@) && v@ == self@[key@],
            r is None ==> !self@.contains_key(key@),
    {
        match self.position(key) {
            Some(i) => {
                proof {
                    lemma_entries_map(self.entries@, key@);
                    assert(last_for(self.entries@, i as int));
                }
                Some(&self.entries[i].1)
            },
            None => None,
        }
    }

    /// Maps `key` to `value`, replacing what it was mapped to.
    pub fn insert(&mut self, key: String, value: V)
        ensures
            final(self)@ == old(self)@.insert(key@, value@),
    {
        match self.position(&key) {
            Some(i) => {
                proof {
                    lemma_entries_map_update(self.entries@, i as int, (key, value));
                }
                self.entries.set(i, (key, value));
            },
            None => {
                let ghost before = self.entries@;
                self.entries.push((key, value));
                proof {
                    assert(self.entries@.drop_last() =~= before);
                }
            },
        }
    }

    /// The names that are mapped, each once, in an order that is left
    /// open.
    pub fn keys(&self) -> (r: Vec<String>)
        ensures
            names_of(r@).no_duplicates(),
            forall|k: Seq<char>| #[trigger] names_of(r@).contains(k) <==> self@.contains_key(k),
    {
        let ghost es = self.entries@;
        let mut out: Vec<String> = Vec::new();
        let mut j: usize = self.entries.len();
        while j > 0
            invariant
                j <= es.len(),
                es == self.entries@,
                names_of(out@) == suffix_names(es, j as int),
            decreases j,
        {
            j -= 1;
            let name = &self.entries[j].0;
            let mut seen = false;
            let mut a: usize = 0;
            while a < out.len()
                invariant
                    a <= out@.len(),
                    seen == names_of(out@.take(a as int)).contains(name@),
                decreases out.len() - a,
            {
                let ghost prefix = names_of(out@.take(a as int));
                proof {
                    assert(names_of(out@.take(a + 1)) =~= prefix.push(out@[a as int]@));
                }
                if out[a] == *name {
                    seen = true;
                    proof {
                        assert(prefix.push(out@[a as int]@)[prefix.len() as int] == name@);
                    }
                } else {
                    proof {
                        if prefix.push(out@[a as int]@).contains(name@) {
                            let x = choose|x: int|
                                0 <= x < prefix.len() + 1 && prefix.push(out@[a as int]@)[x] == name@;
                            assert(x < prefix.len());
                            assert(prefix[x] == name@);
                        }
                        if prefix.contains(name@) {
                            let x = choose|x: int| 0 <= x < prefix.len() && prefix[x] == name@;
                            assert(prefix.push(out@[a as int]@)[x] == name@);
                        }
                    }
                }
                a += 1;
            }
            proof {
                assert(out@.take(a as int) =~= out@);
            }
            if !seen {
                let ghost before = out@;
                out.push(name.clone());
                proof {
                    assert(names_of(out@) =~= names_of(before).push(name@));
                }
            }
        }
        proof {
            lemma_suffix_names(es, 0);
            assert forall|k: Seq<char>| #[trigger] names_of(out@).contains(k) <==> self@.contains_key(k) by {
                lemma_entries_map(es, k);
            }
        }
        out
    }

    /// Takes the value of `key` out, leaving `key` unmapped.
    pub fn take(&mut self, key: &String) -> (r: Option<V>)
        ensures
            r matches Some(v) ==> old(self)@.contains_key(key@) && v@ == old(self)@[key@],
            r is None ==> !old(self)@.contains_key(key@),
            final(self)@ == old(self)@.remove(key@),
    {
        let ghost es = self.entries@;
        let mut kept: Vec<(String, V)> = Vec::new();
        let mut found: Option<V> = None;
        let mut taken = Vec::new();
        std::mem::swap(&mut taken, &mut self.entries);
        proof {
            lemma_entries_map(es, key@);
        }
        let mut rest = taken;
        let total = rest.len();
        assert(total == es.len());
        let mut n: usize = 0;
        while rest.len() > 0
            invariant
                rest@.len() + n == es.len(),
                es.len() == total,
                rest@ =~= es.skip(n as int),
                entries_map(kept@) == entries_map(es.take(n as int)).remove(key@),
                found matches Some(v) ==> exists|i: int|
                    #![trigger es[i]]
                    0 <= i < n && es[i].0@ == key@ && v@ == es[i].1@ && forall|j: int|
                        i < j < n ==> es[j].0@ != key@,
                found is None ==> forall|i: int| 0 <= i < n ==> es[i].0@ != key@,
            decreases rest.len(),
        {
            let entry = rest.remove(0);
            proof {
                assert(entry == es[n as int]);
                assert(es.take(n + 1).drop_last() =~= es.take(n as int));
                assert(es.skip(n + 1) =~= rest@);
            }
            if entry.0 == *key {
                found = Some(entry.1);
                proof {
                    assert(entries_map(es.take(n + 1)) == entries_map(es.take(n as int)).insert(
                        key@,
                        es[n as int].1@,
                    ));
                    assert(entries_map(kept@) =~= entries_map(es.take(n + 1)).remove(key@));
                }
            } else {
                let ghost before = kept@;
                kept.push(entry);
                proof {
                    assert(kept@.drop_last() =~= before);
                    assert(entries_map(kept@) =~= entries_map(es.take(n + 1)).remove(key@));
                }
            }
            n += 1;
        }
        proof {
            assert(es.take(n as int) =~= es);
        }
        self.entries = kept;
        proof {
            match &found {
                Some(v) => {
                    let i = choose|i: int|
                        #![trigger es[i]]
                        0 <= i < n && es[i].0@ == key@ && v@ == es[i].1@ && forall|j: int|
                            i < j < n ==> es[j].0@ != key@;
                    assert(last_for(es, i));
                },
                None => {},
            }
        }
        found
    }
}

impl<V: View + Copy> NameMap<V> {
    /// A second map with the same entries.
    pub fn copy(&self) -> (r: Self)
        ensures
            r@ == self@,
    {
        let mut entries: Vec<(String, V)> = Vec::new();
        let mut i: usize = 0;
        while i < self.entries.len()
            invariant
                i <= self.entries.len(),
                entries@.len() == i,
                forall|j: int|
                    0 <= j < i ==> #[trigger] entries@[j].0@ == self.entries@[j].0@ && entries@[j].1
                        == self.entries@[j].1,
            decreases self.entries.len() - i,
        {
            entries.push((self.entries[i].0.clone(), self.entries[i].1));
            i += 1;
        }
        proof {
            lemma_entries_map_ext(entries@, self.entries@);
        }
        NameMap { entries }
    }
}

} // verus!
