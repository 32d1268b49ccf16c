//! Index from a canonical purl string to the dependency chains that
//! introduced the package.
//!
//! The index is built once per vulnerability view and is read-only
//! afterwards. Each chain is an ordered sequence of purl strings from the
//! root artifact to the affected package; a purl with no entry simply has
//! no known indirect path, which is a valid result, not an error.

use vstd::prelude::*;

use crate::order::Cmp;
use crate::order::str_cmp;

verus! {

/// View of one chain: the sequence of its purl texts.
pub open spec fn chain_view(c: Seq<String>) -> Seq<Seq<char>> {
    c.map_values(|s: String| s@)
}

/// View of a collection of chains.
pub open spec fn chains_view(cs: Seq<Vec<String>>) -> Seq<Seq<Seq<char>>> {
    cs.map_values(|v: Vec<String>| chain_view(v@))
}

/// Lookup from a purl string to the distinct dependency chains recorded
/// for it.
pub struct BacktraceIndex {
    entries: Vec<(String, Vec<Vec<String>>)>,
}

/// The mapping an entry list denotes, later entries shadowing earlier
/// ones; with distinct keys, each entry speaks for itself.
pub open spec fn map_of(es: Seq<(String, Vec<Vec<String>>)>) -> Map<Seq<char>, Seq<Seq<Seq<char>>>>
    decreases es.len(),
{
    if es.len() == 0 {
        Map::empty()
    } else {
        map_of(es.drop_last()).insert(es.last().0@, chains_view(es.last().1@))
    }
}

impl View for BacktraceIndex {
    type V = Map<Seq<char>, Seq<Seq<Seq<char>>>>;

    closed spec fn view(&self) -> Map<Seq<char>, Seq<Seq<Seq<char>>>> {
        map_of(self.entries@)
    }
}

pub proof fn lemma_map_of_keys(es: Seq<(String, Vec<Vec<String>>)>, k: Seq<char>)
    ensures
        map_of(es).contains_key(k) <==> exists|i: int| 0 <= i < es.len() && (#[trigger] es[i]).0@ == k,
    decreases es.len(),
{
    if es.len() > 0 {
        lemma_map_of_keys(es.drop_last(), k);
        if map_of(es).contains_key(k) && es.last().0@ != k {
            let i = choose|i: int| 0 <= i < es.drop_last().len() && (#[trigger] es.drop_last()[i]).0@ == k;
            assert(es[i].0@ == k);
        }
        if exists|i: int| 0 <= i < es.len() && (#[trigger] es[i]).0@ == k {
            let i = choose|i: int| 0 <= i < es.len() && (#[trigger] es[i]).0@ == k;
            if i < es.len() - 1 {
                assert(es.drop_last()[i].0@ == k);
            }
        }
    }
}

/// With distinct keys, the map agrees with each entry.
pub proof fn lemma_map_of_index(es: Seq<(String, Vec<Vec<String>>)>, i: int)
    requires
        forall|i1: int, i2: int| 0 <= i1 < i2 < es.len() ==> (#[trigger] es[i1]).0@ != (
        #[trigger] es[i2]).0@,
        0 <= i < es.len(),
    ensures
        map_of(es).contains_key(es[i].0@),
        map_of(es)[es[i].0@] == chains_view(es[i].1@),
    decreases es.len(),
{
    if i == es.len() - 1 {
        lemma_map_of_keys(es, es[i].0@);
    } else {
        lemma_map_of_index(es.drop_last(), i);
        assert(es.drop_last()[i] == es[i]);
        assert(es.last().0@ != es[i].0@);
    }
}

impl BacktraceIndex {
    /// Keys are pairwise distinct, so the entry list denotes its mapping
    /// faithfully.
    pub closed spec fn wf(&self) -> bool {
        forall|i1: int, i2: int| 0 <= i1 < i2 < self.entries@.len() ==> (
        #[trigger] self.entries@[i1]).0@ != (#[trigger] self.entries@[i2]).0@
    }

    /// An empty index: every purl is a direct dependency only.
    pub fn new() -> (r: Self)
        ensures
            r.wf(),
            r@ == Map::<Seq<char>, Seq<Seq<Seq<char>>>>::empty(),
    {
        BacktraceIndex { entries: Vec::new() }
    }

    fn position_of(&self, purl: &str) -> (r: Option<usize>)
        requires
            self.wf(),
        ensures
            match r {
                Some(i) => i < self.entries@.len() && self.entries@[i as int].0@ == purl@,
                None => forall|i: int|
                    0 <= i < self.entries@.len() ==> (#[trigger] self.entries@[i]).0@ != purl@,
            },
    {
        let n = self.entries.len();
        let mut i: usize = 0;
        while i < n
            invariant
                0 <= i <= n,
                n == self.entries@.len(),
                forall|j: int| 0 <= j < i ==> (#[trigger] self.entries@[j]).0@ != purl@,
            decreases n - i,
        {
            let c = str_cmp(self.entries[i].0.as_str(), purl);
            if matches!(c, Cmp::Eq) {
                return Some(i);
            }
            i = i + 1;
        }
        None
    }

    /// Record one chain for one purl. A chain already present for that
    /// purl is not recorded twice: the chains of a purl form a set.
    pub fn insert(&mut self, purl: String, chain: Vec<String>)
        requires
            old(self).wf(),
        ensures
            final(self).wf(),
            final(self)@ == if old(self)@.contains_key(purl@) {
                if old(self)@[purl@].contains(chain_view(chain@)) {
                    old(self)@
                } else {
                    old(self)@.insert(purl@, old(self)@[purl@].push(chain_view(chain@)))
                }
            } else {
                old(self)@.insert(purl@, seq![chain_view(chain@)])
            },
    {
        let ghost gpurl = purl@;
        let ghost gchain = chain_view(chain@);
        proof {
            lemma_map_of_keys(self.entries@, gpurl);
        }
        let pos = self.position_of(purl.as_str());
        match pos {
            Some(i) => {
                proof {
                    lemma_map_of_index(self.entries@, i as int);
                }
                let dup = chains_contain(&self.entries[i].1, &chain);
                if !dup {
                    let ghost old_entries = self.entries@;
                    let mut entry = self.entries.remove(i);
                    entry.1.push(chain);
                    let ghost gentry = entry;
                    self.entries.insert(i, entry);
                    proof {
                        assert(self.entries@ =~= old_entries.update(i as int, gentry));
                        assert(gentry.0 == old_entries[i as int].0);
                        assert(chains_view(gentry.1@) =~= chains_view(
                            old_entries[i as int].1@,
                        ).push(gchain));
                        lemma_map_of_update(old_entries, self.entries@, i as int);
                        assert(self@ =~= old(self)@.insert(
                            gpurl,
                            old(self)@[gpurl].push(gchain),
                        ));
                    }
                }
            },
            None => {
                let mut chains: Vec<Vec<String>> = Vec::new();
                chains.push(chain);
                proof {
                    assert(chains_view(chains@) =~= seq![gchain]);
                }
                self.entries.push((purl, chains));
                proof {
                    assert(self.entries@.drop_last() =~= old(self).entries@);
                    assert(self@ =~= old(self)@.insert(gpurl, seq![gchain]));
                }
            },
        }
    }

    /// The chains recorded for a purl; an empty result means the purl is
    /// only a direct dependency.
    pub fn lookup(&self, purl: &str) -> (r: Vec<Vec<String>>)
        requires
            self.wf(),
        ensures
            self@.contains_key(purl@) ==> chains_view(r@) == self@[purl@],
            !self@.contains_key(purl@) ==> r@.len() == 0,
    {
        proof {
            lemma_map_of_keys(self.entries@, purl@);
        }
        match self.position_of(purl) {
            Some(i) => {
                proof {
                    lemma_map_of_index(self.entries@, i as int);
                }
                clone_chains(&self.entries[i].1)
            },
            None => Vec::new(),
        }
    }
}

/// Updating one entry's chains rewrites only that key of the mapping.
proof fn lemma_map_of_update(
    old_es: Seq<(String, Vec<Vec<String>>)>,
    new_es: Seq<(String, Vec<Vec<String>>)>,
    i: int,
)
    requires
        0 <= i < old_es.len(),
        new_es.len() == old_es.len(),
        forall|j: int| 0 <= j < old_es.len() && j != i ==> #[trigger] new_es[j] == old_es[j],
        new_es[i].0 == old_es[i].0,
        forall|i1: int, i2: int| 0 <= i1 < i2 < old_es.len() ==> (#[trigger] old_es[i1]).0@ != (
        #[trigger] old_es[i2]).0@,
    ensures
        map_of(new_es) =~= map_of(old_es).insert(new_es[i].0@, chains_view(new_es[i].1@)),
    decreases old_es.len(),
{
    if i == old_es.len() - 1 {
        assert(new_es.drop_last() =~= old_es.drop_last());
    } else {
        lemma_map_of_update(old_es.drop_last(), new_es.drop_last(), i);
        assert(new_es.drop_last()[i] == new_es[i]);
        assert(new_es.last() == old_es.last());
        assert(old_es.last().0@ != old_es[i].0@);
    }
}

/// Whether a chain with the same purl texts is already present.
fn chains_contain(cs: &Vec<Vec<String>>, c: &Vec<String>) -> (b: bool)
    ensures
        b == chains_view(cs@).contains(chain_view(c@)),
{
    let n = cs.len();
    let mut i: usize = 0;
    while i < n
        invariant
            0 <= i <= n,
            n == cs@.len(),
            forall|j: int| 0 <= j < i ==> chains_view(cs@)[j] != chain_view(c@),
        decreases n - i,
    {
        if chain_eq(&cs[i], c) {
            assert(chains_view(cs@)[i as int] == chain_view(c@));
            return true;
        }
        i = i + 1;
    }
    false
}

/// Whether two chains hold the same purl texts.
fn chain_eq(a: &Vec<String>, b: &Vec<String>) -> (r: bool)
    ensures
        r == (chain_view(a@) == chain_view(b@)),
{
    let n = a.len();
    if n != b.len() {
        assert(chain_view(a@).len() != chain_view(b@).len());
        return false;
    }
    let mut i: usize = 0;
    while i < n
        invariant
            0 <= i <= n,
            n == a@.len(),
            n == b@.len(),
            forall|j: int| 0 <= j < i ==> #[trigger] a@[j]@ == b@[j]@,
        decreases n - i,
    {
        if !a[i].eq(&b[i]) {
            assert(chain_view(a@)[i as int] != chain_view(b@)[i as int]);
            return false;
        }
        i = i + 1;
    }
    assert(chain_view(a@) =~= chain_view(b@));
    true
}

/// A deep copy of a chain collection, text for text.
fn clone_chains(cs: &Vec<Vec<String>>) -> (r: Vec<Vec<String>>)
    ensures
        chains_view(r@) == chains_view(cs@),
{
    let n = cs.len();
    let mut r: Vec<Vec<String>> = Vec::new();
    let mut i: usize = 0;
    while i < n
        invariant
            0 <= i <= n,
            n == cs@.len(),
            r@.len() == i,
            forall|j: int| 0 <= j < i ==> chain_view(#[trigger] r@[j]@) == chain_view(cs@[j]@),
        decreases n - i,
    {
        r.push(clone_chain(&cs[i]));
        i = i + 1;
    }
    assert(chains_view(r@) =~= chains_view(cs@));
    r
}

/// A copy of one chain, text for text.
fn clone_chain(c: &Vec<String>) -> (r: Vec<String>)
    ensures
        chain_view(r@) == chain_view(c@),
{
    let n = c.len();
    let mut r: Vec<String> = Vec::new();
    let mut i: usize = 0;
    while i < n
        invariant
            0 <= i <= n,
            n == c@.len(),
            r@.len() == i,
            forall|j: int| 0 <= j < i ==> #[trigger] r@[j]@ == c@[j]@,
        decreases n - i,
    {
        r.push(c[i].clone());
        i = i + 1;
    }
    assert(chain_view(r@) =~= chain_view(c@));
    r
}

} // verus!
