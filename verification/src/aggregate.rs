//! Affected-package aggregation.
//!
//! A vulnerability's list of raw affected-package URL strings is folded
//! into deduplicated groups keyed by `PackageKey`, sorted by the key
//! order, with the qualifier values of duplicate occurrences unioned.
//! A string that does not parse is skipped: a malformed identifier never
//! aborts the aggregation.

use vstd::prelude::*;
use std::rc::Rc;

use crate::backtrace::BacktraceIndex;
use crate::backtrace::chains_view;
use crate::key::KeyView;
use crate::key::PackageKey;
use crate::key::key_cmp;
use crate::key::key_lt;
use crate::key::key_of_input;
use crate::key::lemma_key_lt_irrefl;
use crate::key::lemma_key_lt_trans;
use crate::key::lemma_key_of_matching_id;
use crate::order::Cmp;
use crate::order::lemma_str_lt_trans;
use crate::order::str_cmp;
use crate::order::str_lt;
use crate::purl::parse_purl;
use crate::purl::purl_parse;

verus! {

/// One aggregated group: the key and the merged value.
pub type AffectedPackage = (PackageKey, PackageValue);

/// The merged data of one group: the union of the qualifier values seen
/// for each qualifier name, plus a shared handle on the backtrace index
/// of the owning view.
pub struct PackageValue {
    pub qualifiers: Vec<(String, Vec<String>)>,
    pub backtraces: Rc<BacktraceIndex>,
}

/// The value texts are strictly sorted, hence free of duplicates.
pub open spec fn vals_sorted(vs: Seq<String>) -> bool {
    forall|i: int, j: int| 0 <= i < j < vs.len() ==> str_lt((#[trigger] vs[i])@, (#[trigger] vs[j])@)
}

/// Some value text of the list is `x`.
pub open spec fn val_in(vs: Seq<String>, x: Seq<char>) -> bool {
    exists|j: int| 0 <= j < vs.len() && (#[trigger] vs[j])@ == x
}

/// Qualifier names strictly sorted, each name's values strictly sorted.
pub open spec fn value_wf(v: PackageValue) -> bool {
    &&& forall|i: int, j: int|
        0 <= i < j < v.qualifiers@.len() ==> str_lt(
            (#[trigger] v.qualifiers@[i]).0@,
            (#[trigger] v.qualifiers@[j]).0@,
        )
    &&& forall|i: int| 0 <= i < v.qualifiers@.len() ==> vals_sorted((#[trigger] v.qualifiers@[i]).1@)
}

/// The value records qualifier name `n`.
pub open spec fn value_has_name(v: PackageValue, n: Seq<char>) -> bool {
    exists|i: int| 0 <= i < v.qualifiers@.len() && (#[trigger] v.qualifiers@[i]).0@ == n
}

/// The value records `val` under qualifier name `n`.
pub open spec fn value_has_pair(v: PackageValue, n: Seq<char>, val: Seq<char>) -> bool {
    exists|i: int, j: int|
        0 <= i < v.qualifiers@.len() && v.qualifiers@[i].0@ == n && 0 <= j
            < v.qualifiers@[i].1@.len() && (#[trigger] v.qualifiers@[i].1@[j])@ == val
}

/// The input string parses as a package URL.
pub open spec fn parsed(s: Seq<char>) -> bool {
    purl_parse(s) is Some
}

/// The qualifier mapping of a parsed input.
pub open spec fn input_quals(s: Seq<char>) -> Map<Seq<char>, Seq<char>> {
    purl_parse(s)->0.qualifiers
}

/// Some input parses to key `k`.
pub open spec fn inputs_have_key(inputs: Seq<Seq<char>>, k: KeyView) -> bool {
    exists|j: int|
        0 <= j < inputs.len() && parsed(#[trigger] inputs[j]) && key_of_input(inputs[j]) == k
}

/// Some input with key `k` carries qualifier name `n`.
pub open spec fn inputs_have_qual(inputs: Seq<Seq<char>>, k: KeyView, n: Seq<char>) -> bool {
    exists|j: int|
        0 <= j < inputs.len() && parsed(#[trigger] inputs[j]) && key_of_input(inputs[j]) == k
            && input_quals(inputs[j]).dom().contains(n)
}

/// Some input with key `k` carries the qualifier pair `n = v`.
pub open spec fn inputs_have_pair(inputs: Seq<Seq<char>>, k: KeyView, n: Seq<char>, v: Seq<char>) -> bool {
    exists|j: int|
        0 <= j < inputs.len() && parsed(#[trigger] inputs[j]) && key_of_input(inputs[j]) == k
            && input_quals(inputs[j]).contains_pair(n, v)
}

/// Groups strictly sorted by the key order.
pub open spec fn entries_sorted(r: Seq<AffectedPackage>) -> bool {
    forall|i: int, j: int|
        0 <= i < j < r.len() ==> key_lt((#[trigger] r[i]).0@, (#[trigger] r[j]).0@)
}

/// Some group carries key `k`.
pub open spec fn result_has_key(r: Seq<AffectedPackage>, k: KeyView) -> bool {
    exists|i: int| 0 <= i < r.len() && (#[trigger] r[i]).0@ == k
}

/// Group `i` holds exactly the qualifier data the inputs with its key
/// carry.
pub open spec fn entry_matches(r: Seq<AffectedPackage>, i: int, inputs: Seq<Seq<char>>) -> bool {
    &&& inputs_have_key(inputs, r[i].0@)
    &&& value_wf(r[i].1)
    &&& forall|n: Seq<char>|
        #![trigger value_has_name(r[i].1, n)]
        #![trigger inputs_have_qual(inputs, r[i].0@, n)]
        value_has_name(r[i].1, n) <==> inputs_have_qual(inputs, r[i].0@, n)
    &&& forall|n: Seq<char>, v: Seq<char>|
        #![trigger value_has_pair(r[i].1, n, v)]
        #![trigger inputs_have_pair(inputs, r[i].0@, n, v)]
        value_has_pair(r[i].1, n, v) <==> inputs_have_pair(inputs, r[i].0@, n, v)
}

/// `r` is the aggregation of `inputs`: sorted, deduplicated groups, one
/// per distinct key of the inputs that parse, qualifier values unioned,
/// every group sharing the one backtrace index.
pub open spec fn aggregates(
    r: Seq<AffectedPackage>,
    inputs: Seq<Seq<char>>,
    btv: Map<Seq<char>, Seq<Seq<Seq<char>>>>,
) -> bool {
    &&& entries_sorted(r)
    &&& forall|i: int| 0 <= i < r.len() ==> entry_matches(r, i, inputs)
    &&& forall|j: int|
        0 <= j < inputs.len() && parsed(#[trigger] inputs[j]) ==> result_has_key(
            r,
            key_of_input(inputs[j]),
        )
    &&& forall|i: int| 0 <= i < r.len() ==> (#[trigger] r[i]).1.backtraces@ == btv
}

/// Some pair of the list carries name `n`.
pub open spec fn qn_in(qs: Seq<(String, String)>, n: Seq<char>) -> bool {
    exists|t: int| 0 <= t < qs.len() && (#[trigger] qs[t]).0@ == n
}

/// Some pair of the list is `n = v`.
pub open spec fn qp_in(qs: Seq<(String, String)>, n: Seq<char>, v: Seq<char>) -> bool {
    exists|t: int| 0 <= t < qs.len() && (#[trigger] qs[t]).0@ == n && qs[t].1@ == v
}

/// Extending the considered inputs by one step extends the three input
/// predicates by exactly that input's contribution.
proof fn lemma_inputs_step(inputs: Seq<Seq<char>>, j: int)
    requires
        0 <= j < inputs.len(),
    ensures
        forall|k: KeyView|
            #![trigger inputs_have_key(inputs.take(j + 1), k)]
            #![trigger inputs_have_key(inputs.take(j), k)]
            inputs_have_key(inputs.take(j + 1), k) <==> inputs_have_key(inputs.take(j), k) || (
            parsed(inputs[j]) && key_of_input(inputs[j]) == k),
        forall|k: KeyView, n: Seq<char>|
            #![trigger inputs_have_qual(inputs.take(j + 1), k, n)]
            #![trigger inputs_have_qual(inputs.take(j), k, n)]
            inputs_have_qual(inputs.take(j + 1), k, n) <==> inputs_have_qual(inputs.take(j), k, n)
                || (parsed(inputs[j]) && key_of_input(inputs[j]) == k && input_quals(
                inputs[j],
            ).dom().contains(n)),
        forall|k: KeyView, n: Seq<char>, v: Seq<char>|
            #![trigger inputs_have_pair(inputs.take(j + 1), k, n, v)]
            #![trigger inputs_have_pair(inputs.take(j), k, n, v)]
            inputs_have_pair(inputs.take(j + 1), k, n, v) <==> inputs_have_pair(
                inputs.take(j),
                k,
                n,
                v,
            ) || (parsed(inputs[j]) && key_of_input(inputs[j]) == k && input_quals(
                inputs[j],
            ).contains_pair(n, v)),
{
    let s1 = inputs.take(j + 1);
    let s0 = inputs.take(j);
    assert(s1[j] == inputs[j]);
    assert forall|k: KeyView|
        #![trigger inputs_have_key(s1, k)]
        #![trigger inputs_have_key(s0, k)]
        inputs_have_key(s1, k) == (inputs_have_key(s0, k) || (parsed(inputs[j]) && key_of_input(
            inputs[j],
        ) == k)) by {
        if inputs_have_key(s1, k) {
            let t = choose|t: int|
                0 <= t < s1.len() && parsed(#[trigger] s1[t]) && key_of_input(s1[t]) == k;
            if t < j {
                assert(s0[t] == s1[t]);
            }
        }
        if inputs_have_key(s0, k) {
            let t = choose|t: int|
                0 <= t < s0.len() && parsed(#[trigger] s0[t]) && key_of_input(s0[t]) == k;
            assert(s1[t] == s0[t]);
        }
    }
    assert forall|k: KeyView, n: Seq<char>|
        #![trigger inputs_have_qual(s1, k, n)]
        #![trigger inputs_have_qual(s0, k, n)]
        inputs_have_qual(s1, k, n) == (inputs_have_qual(s0, k, n) || (parsed(inputs[j])
            && key_of_input(inputs[j]) == k && input_quals(inputs[j]).dom().contains(n))) by {
        if inputs_have_qual(s1, k, n) {
            let t = choose|t: int|
                0 <= t < s1.len() && parsed(#[trigger] s1[t]) && key_of_input(s1[t]) == k
                    && input_quals(s1[t]).dom().contains(n);
            if t < j {
                assert(s0[t] == s1[t]);
            }
        }
        if inputs_have_qual(s0, k, n) {
            let t = choose|t: int|
                0 <= t < s0.len() && parsed(#[trigger] s0[t]) && key_of_input(s0[t]) == k
                    && input_quals(s0[t]).dom().contains(n);
            assert(s1[t] == s0[t]);
        }
    }
    assert forall|k: KeyView, n: Seq<char>, v: Seq<char>|
        #![trigger inputs_have_pair(s1, k, n, v)]
        #![trigger inputs_have_pair(s0, k, n, v)]
        inputs_have_pair(s1, k, n, v) == (inputs_have_pair(s0, k, n, v) || (parsed(inputs[j])
            && key_of_input(inputs[j]) == k && input_quals(inputs[j]).contains_pair(n, v))) by {
        if inputs_have_pair(s1, k, n, v) {
            let t = choose|t: int|
                0 <= t < s1.len() && parsed(#[trigger] s1[t]) && key_of_input(s1[t]) == k
                    && input_quals(s1[t]).contains_pair(n, v);
            if t < j {
                assert(s0[t] == s1[t]);
            }
        }
        if inputs_have_pair(s0, k, n, v) {
            let t = choose|t: int|
                0 <= t < s0.len() && parsed(#[trigger] s0[t]) && key_of_input(s0[t]) == k
                    && input_quals(s0[t]).contains_pair(n, v);
            assert(s1[t] == s0[t]);
        }
    }
}

/// The position the key stands at, or the position where it would be
/// inserted to keep the groups sorted.
fn find_slot(r: &Vec<AffectedPackage>, key: &PackageKey) -> (res: (usize, bool))
    requires
        entries_sorted(r@),
    ensures
        res.0 <= r@.len(),
        forall|i: int| 0 <= i < res.0 ==> key_lt((#[trigger] r@[i]).0@, key@),
        res.1 ==> res.0 < r@.len() && r@[res.0 as int].0@ == key@,
        !res.1 ==> forall|i: int| res.0 <= i < r@.len() ==> key_lt(key@, (#[trigger] r@[i]).0@),
{
    let n = r.len();
    let mut i: usize = 0;
    while i < n
        invariant
            0 <= i <= n,
            n == r@.len(),
            entries_sorted(r@),
            forall|j: int| 0 <= j < i ==> key_lt((#[trigger] r@[j]).0@, key@),
        decreases n - i,
    {
        let c = key_cmp(&r[i].0, key);
        match c {
            Cmp::Lt => {
                i = i + 1;
            },
            Cmp::Eq => {
                return (i, true);
            },
            Cmp::Gt => {
                proof {
                    assert forall|j: int| i <= j < r@.len() implies key_lt(
                        key@,
                        (#[trigger] r@[j]).0@,
                    ) by {
                        if j > i {
                            lemma_key_lt_trans(key@, r@[i as int].0@, r@[j].0@);
                        }
                    }
                }
                return (i, false);
            },
        }
    }
    (n, false)
}

/// Insert a value text into a sorted list, keeping it sorted and
/// duplicate-free.
fn insert_value(vs: &mut Vec<String>, value: &String)
    requires
        vals_sorted(old(vs)@),
    ensures
        vals_sorted(final(vs)@),
        forall|x: Seq<char>|
            #![trigger val_in(final(vs)@, x)]
            #![trigger val_in(old(vs)@, x)]
            val_in(final(vs)@, x) <==> val_in(old(vs)@, x) || x == value@,
{
    let n = vs.len();
    let mut i: usize = 0;
    while i < n
        invariant
            0 <= i <= n,
            n == vs@.len(),
            vs@ == old(vs)@,
            vals_sorted(vs@),
            forall|j: int| 0 <= j < i ==> str_lt((#[trigger] vs@[j])@, value@),
        decreases n - i,
    {
        let c = str_cmp(vs[i].as_str(), value.as_str());
        match c {
            Cmp::Lt => {
                i = i + 1;
            },
            Cmp::Eq => {
                proof {
                    assert(val_in(vs@, value@));
                }
                return ;
            },
            Cmp::Gt => {
                let ghost oldv = vs@;
                let cloned = value.clone();
                let ghost gins = cloned;
                vs.insert(i, cloned);
                proof {
                    oldv.insert_ensures(i as int, gins);
                    assert forall|a: int, b: int| 0 <= a < b < vs@.len() implies str_lt(
                        (#[trigger] vs@[a])@,
                        (#[trigger] vs@[b])@,
                    ) by {
                        if a < i && b == i {
                        } else if a == i && b > i {
                            if i < b - 1 {
                                lemma_str_lt_trans(value@, oldv[i as int]@, oldv[b - 1]@);
                            }
                        }
                    }
                    assert forall|x: Seq<char>|
                        #![trigger val_in(vs@, x)]
                        #![trigger val_in(oldv, x)]
                        val_in(vs@, x) == (val_in(oldv, x) || x == value@) by {
                        if val_in(vs@, x) {
                            let j = choose|j: int| 0 <= j < vs@.len() && (#[trigger] vs@[j])@ == x;
                            if j < i {
                                assert(oldv[j]@ == x);
                            } else if j > i {
                                assert(oldv[j - 1]@ == x);
                            }
                        }
                        if val_in(oldv, x) {
                            let j = choose|j: int| 0 <= j < oldv.len() && (#[trigger] oldv[j])@ == x;
                            if j < i {
                                assert(vs@[j]@ == x);
                            } else {
                                assert(vs@[j + 1]@ == x);
                            }
                        }
                        if x == value@ {
                            assert(vs@[i as int]@ == x);
                        }
                    }
                }
                return ;
            },
        }
    }
    let ghost oldv = vs@;
    vs.push(value.clone());
    proof {
        assert forall|x: Seq<char>|
            #![trigger val_in(vs@, x)]
            #![trigger val_in(oldv, x)]
            val_in(vs@, x) == (val_in(oldv, x) || x == value@) by {
            if val_in(vs@, x) {
                let j = choose|j: int| 0 <= j < vs@.len() && (#[trigger] vs@[j])@ == x;
                if j < oldv.len() {
                    assert(oldv[j]@ == x);
                }
            }
            if val_in(oldv, x) {
                let j = choose|j: int| 0 <= j < oldv.len() && (#[trigger] oldv[j])@ == x;
                assert(vs@[j]@ == x);
            }
            if x == value@ {
                assert(vs@[oldv.len() as int]@ == x);
            }
        }
    }
}

impl PackageValue {
    /// A fresh, empty value holding a shared handle on the backtrace
    /// index.
    pub fn empty(backtraces: &Rc<BacktraceIndex>) -> (v: PackageValue)
        ensures
            value_wf(v),
            v.qualifiers@.len() == 0,
            v.backtraces == *backtraces,
    {
        PackageValue { qualifiers: Vec::new(), backtraces: Rc::clone(backtraces) }
    }

    /// Record one qualifier pair, unioning the value into the set at the
    /// qualifier's name.
    pub fn add_qualifier(&mut self, name: &String, value: &String)
        requires
            value_wf(*old(self)),
        ensures
            value_wf(*final(self)),
            final(self).backtraces == old(self).backtraces,
            forall|n: Seq<char>|
                #![trigger value_has_name(*final(self), n)]
                #![trigger value_has_name(*old(self), n)]
                value_has_name(*final(self), n) <==> value_has_name(*old(self), n) || n == name@,
            forall|n: Seq<char>, v: Seq<char>|
                #![trigger value_has_pair(*final(self), n, v)]
                #![trigger value_has_pair(*old(self), n, v)]
                value_has_pair(*final(self), n, v) <==> value_has_pair(*old(self), n, v) || (n
                    == name@ && v == value@),
    {
        let n = self.qualifiers.len();
        let mut i: usize = 0;
        while i < n
            invariant
                0 <= i <= n,
                n == self.qualifiers@.len(),
                *self == *old(self),
                value_wf(*self),
                forall|j: int| 0 <= j < i ==> str_lt((#[trigger] self.qualifiers@[j]).0@, name@),
            decreases n - i,
        {
            let c = str_cmp(self.qualifiers[i].0.as_str(), name.as_str());
            match c {
                Cmp::Lt => {
                    i = i + 1;
                },
                Cmp::Eq => {
                    let ghost oldq = self.qualifiers@;
                    let mut entry = self.qualifiers.remove(i);
                    insert_value(&mut entry.1, value);
                    let ghost gentry = entry;
                    self.qualifiers.insert(i, entry);
                    proof {
                        oldq.remove_ensures(i as int);
                        oldq.remove(i as int).insert_ensures(i as int, gentry);
                        assert(self.qualifiers@ =~= oldq.update(i as int, gentry));
                        assert(gentry.0@ == name@);
                        lemma_update_entry(*old(self), *self, i as int, name@, value@);
                    }
                    return ;
                },
                Cmp::Gt => {
                    let ghost oldq = self.qualifiers@;
                    let mut vals: Vec<String> = Vec::new();
                    vals.push(value.clone());
                    let ghost gvals = vals@;
                    self.qualifiers.insert(i, (name.clone(), vals));
                    proof {
                        oldq.insert_ensures(i as int, self.qualifiers@[i as int]);
                        assert(self.qualifiers@[i as int].0@ == name@);
                        assert(self.qualifiers@[i as int].1@ == gvals);
                        lemma_insert_entry(*old(self), *self, i as int, name@, value@);
                    }
                    return ;
                },
            }
        }
        let ghost oldq = self.qualifiers@;
        let mut vals: Vec<String> = Vec::new();
        vals.push(value.clone());
        let ghost gvals = vals@;
        self.qualifiers.push((name.clone(), vals));
        proof {
            assert(self.qualifiers@ =~= oldq.insert(oldq.len() as int, self.qualifiers@[oldq.len() as int]));
            oldq.insert_ensures(oldq.len() as int, self.qualifiers@[oldq.len() as int]);
            assert(self.qualifiers@[oldq.len() as int].0@ == name@);
            assert(self.qualifiers@[oldq.len() as int].1@ == gvals);
            lemma_insert_entry(*old(self), *self, oldq.len() as int, name@, value@);
        }
    }
}

/// Replacing the entry at `i` by one with the same name and the value
/// text unioned in yields the expected contents.
proof fn lemma_update_entry(
    oldv: PackageValue,
    newv: PackageValue,
    i: int,
    name: Seq<char>,
    value: Seq<char>,
)
    requires
        value_wf(oldv),
        0 <= i < oldv.qualifiers@.len(),
        newv.qualifiers@.len() == oldv.qualifiers@.len(),
        forall|j: int|
            0 <= j < oldv.qualifiers@.len() && j != i ==> #[trigger] newv.qualifiers@[j]
                == oldv.qualifiers@[j],
        newv.qualifiers@[i].0 == oldv.qualifiers@[i].0,
        oldv.qualifiers@[i].0@ == name,
        vals_sorted(newv.qualifiers@[i].1@),
        forall|x: Seq<char>|
            #![trigger val_in(newv.qualifiers@[i].1@, x)]
            #![trigger val_in(oldv.qualifiers@[i].1@, x)]
            val_in(newv.qualifiers@[i].1@, x) <==> val_in(oldv.qualifiers@[i].1@, x) || x == value,
    ensures
        value_wf(newv),
        forall|n: Seq<char>|
            #![trigger value_has_name(newv, n)]
            #![trigger value_has_name(oldv, n)]
            value_has_name(newv, n) <==> value_has_name(oldv, n) || n == name,
        forall|n: Seq<char>, v: Seq<char>|
            #![trigger value_has_pair(newv, n, v)]
            #![trigger value_has_pair(oldv, n, v)]
            value_has_pair(newv, n, v) <==> value_has_pair(oldv, n, v) || (n == name && v == value),
{
    assert forall|n: Seq<char>|
        #![trigger value_has_name(newv, n)]
        #![trigger value_has_name(oldv, n)]
        value_has_name(newv, n) == (value_has_name(oldv, n) || n == name) by {
        if value_has_name(newv, n) {
            let j = choose|j: int|
                0 <= j < newv.qualifiers@.len() && (#[trigger] newv.qualifiers@[j]).0@ == n;
            assert(oldv.qualifiers@[j].0@ == n);
        }
        if value_has_name(oldv, n) {
            let j = choose|j: int|
                0 <= j < oldv.qualifiers@.len() && (#[trigger] oldv.qualifiers@[j]).0@ == n;
            assert(newv.qualifiers@[j].0@ == n);
        }
        if n == name {
            assert(newv.qualifiers@[i].0@ == n);
        }
    }
    assert forall|n: Seq<char>, v: Seq<char>|
        #![trigger value_has_pair(newv, n, v)]
        #![trigger value_has_pair(oldv, n, v)]
        value_has_pair(newv, n, v) == (value_has_pair(oldv, n, v) || (n == name && v == value)) by {
        if value_has_pair(newv, n, v) {
            let (j, t) = choose|j: int, t: int|
                0 <= j < newv.qualifiers@.len() && newv.qualifiers@[j].0@ == n && 0 <= t
                    < newv.qualifiers@[j].1@.len() && (#[trigger] newv.qualifiers@[j].1@[t])@ == v;
            if j == i {
                assert(val_in(newv.qualifiers@[i].1@, v));
                if val_in(oldv.qualifiers@[i].1@, v) {
                    let t2 = choose|t2: int|
                        0 <= t2 < oldv.qualifiers@[i].1@.len() && (#[trigger] oldv.qualifiers@[i].1@[t2])@
                            == v;
                    assert(value_has_pair(oldv, n, v));
                }
            } else {
                assert(oldv.qualifiers@[j].0@ == n && oldv.qualifiers@[j].1@[t]@ == v);
            }
        }
        if value_has_pair(oldv, n, v) {
            let (j, t) = choose|j: int, t: int|
                0 <= j < oldv.qualifiers@.len() && oldv.qualifiers@[j].0@ == n && 0 <= t
                    < oldv.qualifiers@[j].1@.len() && (#[trigger] oldv.qualifiers@[j].1@[t])@ == v;
            if j == i {
                assert(val_in(oldv.qualifiers@[i].1@, v));
                assert(val_in(newv.qualifiers@[i].1@, v));
                let t2 = choose|t2: int|
                    0 <= t2 < newv.qualifiers@[i].1@.len() && (#[trigger] newv.qualifiers@[i].1@[t2])@
                        == v;
                assert(value_has_pair(newv, n, v));
            } else {
                assert(newv.qualifiers@[j].0@ == n && newv.qualifiers@[j].1@[t]@ == v);
            }
        }
        if n == name && v == value {
            assert(val_in(newv.qualifiers@[i].1@, v));
            let t2 = choose|t2: int|
                0 <= t2 < newv.qualifiers@[i].1@.len() && (#[trigger] newv.qualifiers@[i].1@[t2])@
                    == v;
            assert(value_has_pair(newv, n, v));
        }
    }
}

/// Inserting a fresh entry `(name, [value])` at position `i`, between the
/// names below and above it, yields the expected contents.
proof fn lemma_insert_entry(
    oldv: PackageValue,
    newv: PackageValue,
    i: int,
    name: Seq<char>,
    value: Seq<char>,
)
    requires
        value_wf(oldv),
        0 <= i <= oldv.qualifiers@.len(),
        newv.qualifiers@ == oldv.qualifiers@.insert(i, newv.qualifiers@[i]),
        newv.qualifiers@[i].0@ == name,
        newv.qualifiers@[i].1@.len() == 1,
        newv.qualifiers@[i].1@[0]@ == value,
        forall|j: int| 0 <= j < i ==> str_lt((#[trigger] oldv.qualifiers@[j]).0@, name),
        i < oldv.qualifiers@.len() ==> str_lt(name, oldv.qualifiers@[i].0@),
    ensures
        value_wf(newv),
        forall|n: Seq<char>|
            #![trigger value_has_name(newv, n)]
            #![trigger value_has_name(oldv, n)]
            value_has_name(newv, n) <==> value_has_name(oldv, n) || n == name,
        forall|n: Seq<char>, v: Seq<char>|
            #![trigger value_has_pair(newv, n, v)]
            #![trigger value_has_pair(oldv, n, v)]
            value_has_pair(newv, n, v) <==> value_has_pair(oldv, n, v) || (n == name && v == value),
{
    oldv.qualifiers@.insert_ensures(i, newv.qualifiers@[i]);
    assert forall|a: int, b: int| 0 <= a < b < newv.qualifiers@.len() implies str_lt(
        (#[trigger] newv.qualifiers@[a]).0@,
        (#[trigger] newv.qualifiers@[b]).0@,
    ) by {
        if a < i && b == i {
        } else if a == i && b > i {
            if i < b - 1 {
                lemma_str_lt_trans(name, oldv.qualifiers@[i].0@, oldv.qualifiers@[b - 1].0@);
            }
        } else if a < i && b > i {
            assert(newv.qualifiers@[a] == oldv.qualifiers@[a]);
            assert(newv.qualifiers@[b] == oldv.qualifiers@[b - 1]);
        } else if a > i && b > i {
            assert(newv.qualifiers@[a] == oldv.qualifiers@[a - 1]);
            assert(newv.qualifiers@[b] == oldv.qualifiers@[b - 1]);
        }
    }
    assert forall|n: Seq<char>|
        #![trigger value_has_name(newv, n)]
        #![trigger value_has_name(oldv, n)]
        value_has_name(newv, n) == (value_has_name(oldv, n) || n == name) by {
        if value_has_name(newv, n) {
            let j = choose|j: int|
                0 <= j < newv.qualifiers@.len() && (#[trigger] newv.qualifiers@[j]).0@ == n;
            if j < i {
                assert(oldv.qualifiers@[j].0@ == n);
            } else if j > i {
                assert(oldv.qualifiers@[j - 1].0@ == n);
            }
        }
        if value_has_name(oldv, n) {
            let j = choose|j: int|
                0 <= j < oldv.qualifiers@.len() && (#[trigger] oldv.qualifiers@[j]).0@ == n;
            if j < i {
                assert(newv.qualifiers@[j].0@ == n);
            } else {
                assert(newv.qualifiers@[j + 1].0@ == n);
            }
        }
        if n == name {
            assert(newv.qualifiers@[i].0@ == n);
        }
    }
    assert forall|n: Seq<char>, v: Seq<char>|
        #![trigger value_has_pair(newv, n, v)]
        #![trigger value_has_pair(oldv, n, v)]
        value_has_pair(newv, n, v) == (value_has_pair(oldv, n, v) || (n == name && v == value)) by {
        if value_has_pair(newv, n, v) {
            let (j, t) = choose|j: int, t: int|
                0 <= j < newv.qualifiers@.len() && newv.qualifiers@[j].0@ == n && 0 <= t
                    < newv.qualifiers@[j].1@.len() && (#[trigger] newv.qualifiers@[j].1@[t])@ == v;
            if j < i {
                assert(oldv.qualifiers@[j].0@ == n && oldv.qualifiers@[j].1@[t]@ == v);
            } else if j > i {
                assert(oldv.qualifiers@[j - 1].0@ == n && oldv.qualifiers@[j - 1].1@[t]@ == v);
            } else {
                assert(t == 0);
            }
        }
        if value_has_pair(oldv, n, v) {
            let (j, t) = choose|j: int, t: int|
                0 <= j < oldv.qualifiers@.len() && oldv.qualifiers@[j].0@ == n && 0 <= t
                    < oldv.qualifiers@[j].1@.len() && (#[trigger] oldv.qualifiers@[j].1@[t])@ == v;
            if j < i {
                assert(newv.qualifiers@[j].0@ == n && newv.qualifiers@[j].1@[t]@ == v);
            } else {
                assert(newv.qualifiers@[j + 1].0@ == n && newv.qualifiers@[j + 1].1@[t]@ == v);
            }
        }
        if n == name && v == value {
            assert(newv.qualifiers@[i].0@ == n && newv.qualifiers@[i].1@[0]@ == v);
        }
    }
}

impl PackageValue {
    /// The dependency chains recorded for a group's purl; an empty
    /// result means the package is only a direct dependency.
    pub fn backtraces_for(&self, key: &PackageKey) -> (r: Vec<Vec<String>>)
        requires
            self.backtraces.wf(),
        ensures
            self.backtraces@.contains_key(key.purl@) ==> chains_view(r@) == self.backtraces@[key.purl@],
            !self.backtraces@.contains_key(key.purl@) ==> r@.len() == 0,
    {
        self.backtraces.lookup(key.purl.as_str())
    }
}

/// Fold raw affected-package URL strings into deduplicated, sorted
/// groups. A string that does not parse is skipped; qualifier values of
/// duplicate occurrences are unioned; every group shares the one
/// backtrace index handed in.
pub fn build_packages(purls: &Vec<String>, backtraces: &Rc<BacktraceIndex>) -> (r: Vec<
    AffectedPackage,
>)
    ensures
        aggregates(r@, purls@.map_values(|p: String| p@), backtraces@),
        forall|i: int| 0 <= i < r@.len() ==> (#[trigger] r@[i]).1.backtraces == *backtraces,
{
    let ghost inputs = purls@.map_values(|p: String| p@);
    let n = purls.len();
    let mut r: Vec<AffectedPackage> = Vec::new();
    proof {
        assert(inputs.take(0) =~= Seq::<Seq<char>>::empty());
    }
    let mut idx: usize = 0;
    while idx < n
        invariant
            0 <= idx <= n,
            n == purls@.len(),
            inputs == purls@.map_values(|p: String| p@),
            inputs.len() == n,
            aggregates(r@, inputs.take(idx as int), backtraces@),
            forall|i: int| 0 <= i < r@.len() ==> (#[trigger] r@[i]).1.backtraces == *backtraces,
        decreases n - idx,
    {
        let ghost gin = inputs[idx as int];
        let ghost take0 = inputs.take(idx as int);
        let ghost take1 = inputs.take(idx as int + 1);
        proof {
            assert(gin == purls@[idx as int]@);
            assert(take1[idx as int] == gin);
            lemma_inputs_step(inputs, idx as int);
            assert forall|j: int| 0 <= j < idx implies take1[j] == take0[j] by {}
        }
        match parse_purl(purls[idx].as_str()) {
            None => {
                proof {
                    assert(!parsed(gin));
                    assert forall|i: int| 0 <= i < r@.len() implies entry_matches(
                        r@,
                        i,
                        take1,
                    ) by {
                        assert(entry_matches(r@, i, take0));
                        assert(inputs_have_key(take1, r@[i].0@) == inputs_have_key(
                            take0,
                            r@[i].0@,
                        ));
                        assert forall|nn: Seq<char>|
                            value_has_name(r@[i].1, nn) <==> inputs_have_qual(
                                take1,
                                r@[i].0@,
                                nn,
                            ) by {
                            assert(inputs_have_qual(take1, r@[i].0@, nn) == inputs_have_qual(
                                take0,
                                r@[i].0@,
                                nn,
                            ));
                        }
                        assert forall|nn: Seq<char>, vv: Seq<char>|
                            value_has_pair(r@[i].1, nn, vv) <==> inputs_have_pair(
                                take1,
                                r@[i].0@,
                                nn,
                                vv,
                            ) by {
                            assert(inputs_have_pair(take1, r@[i].0@, nn, vv) == inputs_have_pair(
                                take0,
                                r@[i].0@,
                                nn,
                                vv,
                            ));
                        }
                    }
                    assert forall|j: int|
                        0 <= j < take1.len() && parsed(#[trigger] take1[j]) implies result_has_key(
                        r@,
                        key_of_input(take1[j]),
                    ) by {
                        assert(j < idx);
                        assert(take0[j] == take1[j]);
                    }
                }
            },
            Some(id) => {
                let key = PackageKey::new(&id);
                proof {
                    lemma_key_of_matching_id(id, gin);
                    assert(key@ == key_of_input(gin));
                    assert(parsed(gin));
                    assert(input_quals(gin) == purl_parse(gin)->0.qualifiers);
                }
                let ghost gkey = key@;
                let ghost pre = r@;
                let (pos, found) = find_slot(&r, &key);
                proof {
                    assert forall|i: int|
                        0 <= i < pre.len() && i != pos implies (#[trigger] pre[i]).0@ != gkey by {
                        if i < pos as int {
                            if pre[i].0@ == gkey {
                                lemma_key_lt_irrefl(gkey);
                            }
                        } else {
                            if pre[i].0@ == gkey {
                                if found {
                                    assert(key_lt(pre[pos as int].0@, pre[i].0@));
                                    lemma_key_lt_irrefl(gkey);
                                } else {
                                    lemma_key_lt_irrefl(gkey);
                                }
                            }
                        }
                    }
                    if !found {
                        if inputs_have_key(take0, gkey) {
                            assert(result_has_key(pre, gkey));
                            let w = choose|i: int| 0 <= i < pre.len() && (#[trigger] pre[i]).0@ == gkey;
                            lemma_key_lt_irrefl(gkey);
                            assert(false);
                        }
                    }
                }
                if !found {
                    let value = PackageValue::empty(backtraces);
                    r.insert(pos, (key, value));
                    proof {
                        pre.insert_ensures(pos as int, r@[pos as int]);
                        assert(r@[pos as int].0@ == gkey);
                        assert forall|a: int, b: int| 0 <= a < b < r@.len() implies key_lt(
                            (#[trigger] r@[a]).0@,
                            (#[trigger] r@[b]).0@,
                        ) by {
                            if a < pos as int && b == pos as int {
                            } else if a == pos as int && b > pos as int {
                                assert(r@[b].0@ == pre[b - 1].0@);
                            } else if a < pos as int && b > pos as int {
                                assert(r@[a] == pre[a] && r@[b] == pre[b - 1]);
                            } else if a > pos as int {
                                assert(r@[a] == pre[a - 1] && r@[b] == pre[b - 1]);
                            }
                        }
                    }
                }
                let ghost mid = r@;
                proof {
                    // every non-pos entry of mid is a pre entry with another key
                    assert forall|i: int|
                        0 <= i < mid.len() && i != pos implies mid[i].0@ != gkey && entry_matches(
                        mid,
                        i,
                        take0,
                    ) && mid[i].1.backtraces@ == backtraces@ by {
                        if found {
                            assert(mid[i] == pre[i]);
                            assert(entry_matches(pre, i, take0));
                        } else {
                            if i < pos as int {
                                assert(mid[i] == pre[i]);
                                assert(entry_matches(pre, i, take0));
                            } else {
                                assert(mid[i] == pre[i - 1]);
                                assert(entry_matches(pre, i - 1, take0));
                            }
                        }
                    }
                    assert(entries_sorted(mid));
                    assert(mid[pos as int].0@ == gkey);
                }
                let (ekey, mut evalue) = r.remove(pos);
                let ghost v0 = evalue;
                proof {
                    mid.remove_ensures(pos as int);
                    assert(ekey@ == gkey);
                    if found {
                        assert(entry_matches(pre, pos as int, take0));
                    } else {
                        assert(v0.qualifiers@.len() == 0);
                    }
                    assert(value_wf(v0));
                }
                let m = id.qualifiers.len();
                let mut qi: usize = 0;
                while qi < m
                    invariant
                        0 <= qi <= m,
                        m == id.qualifiers@.len(),
                        value_wf(evalue),
                        evalue.backtraces == v0.backtraces,
                        forall|nn: Seq<char>|
                            #![trigger value_has_name(evalue, nn)]
                            value_has_name(evalue, nn) <==> value_has_name(v0, nn) || qn_in(
                                id.qualifiers@.take(qi as int),
                                nn,
                            ),
                        forall|nn: Seq<char>, vv: Seq<char>|
                            #![trigger value_has_pair(evalue, nn, vv)]
                            value_has_pair(evalue, nn, vv) <==> value_has_pair(v0, nn, vv) || qp_in(
                                id.qualifiers@.take(qi as int),
                                nn,
                                vv,
                            ),
                    decreases m - qi,
                {
                    let pair = &id.qualifiers[qi];
                    let ghost pe = evalue;
                    let ghost gtk = id.qualifiers@.take(qi as int);
                    let ghost gtk1 = id.qualifiers@.take(qi as int + 1);
                    evalue.add_qualifier(&pair.0, &pair.1);
                    proof {
                        assert(gtk1 =~= gtk.push(id.qualifiers@[qi as int]));
                        assert forall|nn: Seq<char>|
                            #![trigger value_has_name(evalue, nn)]
                            value_has_name(evalue, nn) == (value_has_name(v0, nn) || qn_in(
                                gtk1,
                                nn,
                            )) by {
                            assert(value_has_name(evalue, nn) == (value_has_name(pe, nn) || nn
                                == id.qualifiers@[qi as int].0@));
                            if qn_in(gtk1, nn) {
                                let t = choose|t: int|
                                    0 <= t < gtk1.len() && (#[trigger] gtk1[t]).0@ == nn;
                                if t < qi as int {
                                    assert(gtk[t] == gtk1[t]);
                                }
                            }
                            if qn_in(gtk, nn) {
                                let t = choose|t: int|
                                    0 <= t < gtk.len() && (#[trigger] gtk[t]).0@ == nn;
                                assert(gtk1[t] == gtk[t]);
                            }
                            if nn == id.qualifiers@[qi as int].0@ {
                                assert(gtk1[qi as int].0@ == nn);
                            }
                        }
                        assert forall|nn: Seq<char>, vv: Seq<char>|
                            #![trigger value_has_pair(evalue, nn, vv)]
                            value_has_pair(evalue, nn, vv) == (value_has_pair(v0, nn, vv) || qp_in(
                                gtk1,
                                nn,
                                vv,
                            )) by {
                            assert(value_has_pair(evalue, nn, vv) == (value_has_pair(pe, nn, vv)
                                || (nn == id.qualifiers@[qi as int].0@ && vv
                                == id.qualifiers@[qi as int].1@)));
                            if qp_in(gtk1, nn, vv) {
                                let t = choose|t: int|
                                    0 <= t < gtk1.len() && (#[trigger] gtk1[t]).0@ == nn
                                        && gtk1[t].1@ == vv;
                                if t < qi as int {
                                    assert(gtk[t] == gtk1[t]);
                                }
                            }
                            if qp_in(gtk, nn, vv) {
                                let t = choose|t: int|
                                    0 <= t < gtk.len() && (#[trigger] gtk[t]).0@ == nn && gtk[t].1@
                                        == vv;
                                assert(gtk1[t] == gtk[t]);
                            }
                            if nn == id.qualifiers@[qi as int].0@ && vv
                                == id.qualifiers@[qi as int].1@ {
                                assert(gtk1[qi as int].0@ == nn && gtk1[qi as int].1@ == vv);
                            }
                        }
                    }
                    qi = qi + 1;
                }
                proof {
                    assert(id.qualifiers@.take(m as int) =~= id.qualifiers@);
                    // translate the pair list's contribution into the parsed
                    // qualifier mapping, which the pair list represents
                    assert forall|nn: Seq<char>|
                        #![trigger value_has_name(evalue, nn)]
                        value_has_name(evalue, nn) == (value_has_name(v0, nn) || input_quals(
                            gin,
                        ).dom().contains(nn)) by {
                        if qn_in(id.qualifiers@, nn) {
                            let t = choose|t: int|
                                0 <= t < id.qualifiers@.len() && (#[trigger] id.qualifiers@[t]).0@
                                    == nn;
                            assert(input_quals(gin).contains_pair(
                                id.qualifiers@[t].0@,
                                id.qualifiers@[t].1@,
                            ));
                        }
                        if input_quals(gin).dom().contains(nn) {
                            let t = choose|t: int|
                                0 <= t < id.qualifiers@.len() && (#[trigger] id.qualifiers@[t]).0@
                                    == nn;
                            assert(qn_in(id.qualifiers@, nn));
                        }
                    }
                    assert forall|nn: Seq<char>, vv: Seq<char>|
                        #![trigger value_has_pair(evalue, nn, vv)]
                        value_has_pair(evalue, nn, vv) == (value_has_pair(v0, nn, vv)
                            || input_quals(gin).contains_pair(nn, vv)) by {
                        if qp_in(id.qualifiers@, nn, vv) {
                            let t = choose|t: int|
                                0 <= t < id.qualifiers@.len() && (#[trigger] id.qualifiers@[t]).0@
                                    == nn && id.qualifiers@[t].1@ == vv;
                            assert(input_quals(gin).contains_pair(
                                id.qualifiers@[t].0@,
                                id.qualifiers@[t].1@,
                            ));
                        }
                        if input_quals(gin).contains_pair(nn, vv) {
                            let t = choose|t: int|
                                0 <= t < id.qualifiers@.len() && (#[trigger] id.qualifiers@[t]).0@
                                    == nn;
                            assert(input_quals(gin).contains_pair(
                                id.qualifiers@[t].0@,
                                id.qualifiers@[t].1@,
                            ));
                            assert(id.qualifiers@[t].1@ == vv);
                            assert(qp_in(id.qualifiers@, nn, vv));
                        }
                    }
                }
                let ghost gvalue = evalue;
                r.insert(pos, (ekey, evalue));
                proof {
                    mid.remove(pos as int).insert_ensures(pos as int, r@[pos as int]);
                    assert(r@ =~= mid.update(pos as int, (mid[pos as int].0, gvalue)));
                    assert(r@[pos as int].0@ == gkey);
                    assert(r@.len() == mid.len());
                    // sortedness: keys are unchanged
                    assert forall|a: int, b: int| 0 <= a < b < r@.len() implies key_lt(
                        (#[trigger] r@[a]).0@,
                        (#[trigger] r@[b]).0@,
                    ) by {
                        assert(r@[a].0@ == mid[a].0@ && r@[b].0@ == mid[b].0@);
                    }
                    // each group matches the extended inputs
                    assert forall|i: int| 0 <= i < r@.len() implies entry_matches(r@, i, take1) by {
                        if i == pos as int {
                            assert(inputs_have_key(take1, gkey));
                            assert forall|nn: Seq<char>|
                                value_has_name(r@[i].1, nn) <==> inputs_have_qual(
                                    take1,
                                    gkey,
                                    nn,
                                ) by {
                                assert(inputs_have_qual(take1, gkey, nn) == (inputs_have_qual(
                                    take0,
                                    gkey,
                                    nn,
                                ) || input_quals(gin).dom().contains(nn)));
                                if found {
                                    assert(value_has_name(v0, nn) == inputs_have_qual(
                                        take0,
                                        gkey,
                                        nn,
                                    ));
                                } else {
                                    assert(!value_has_name(v0, nn));
                                    if inputs_have_qual(take0, gkey, nn) {
                                        assert(inputs_have_key(take0, gkey));
                                    }
                                }
                            }
                            assert forall|nn: Seq<char>, vv: Seq<char>|
                                value_has_pair(r@[i].1, nn, vv) <==> inputs_have_pair(
                                    take1,
                                    gkey,
                                    nn,
                                    vv,
                                ) by {
                                assert(inputs_have_pair(take1, gkey, nn, vv) == (inputs_have_pair(
                                    take0,
                                    gkey,
                                    nn,
                                    vv,
                                ) || input_quals(gin).contains_pair(nn, vv)));
                                if found {
                                    assert(value_has_pair(v0, nn, vv) == inputs_have_pair(
                                        take0,
                                        gkey,
                                        nn,
                                        vv,
                                    ));
                                } else {
                                    assert(!value_has_pair(v0, nn, vv));
                                    if inputs_have_pair(take0, gkey, nn, vv) {
                                        assert(inputs_have_key(take0, gkey));
                                    }
                                }
                            }
                        } else {
                            assert(r@[i] == mid[i]);
                            assert(entry_matches(mid, i, take0));
                            assert(mid[i].0@ != gkey);
                            assert(inputs_have_key(take1, mid[i].0@));
                            assert forall|nn: Seq<char>|
                                value_has_name(r@[i].1, nn) <==> inputs_have_qual(
                                    take1,
                                    r@[i].0@,
                                    nn,
                                ) by {
                                assert(inputs_have_qual(take1, mid[i].0@, nn) == inputs_have_qual(
                                    take0,
                                    mid[i].0@,
                                    nn,
                                ));
                            }
                            assert forall|nn: Seq<char>, vv: Seq<char>|
                                value_has_pair(r@[i].1, nn, vv) <==> inputs_have_pair(
                                    take1,
                                    r@[i].0@,
                                    nn,
                                    vv,
                                ) by {
                                assert(inputs_have_pair(take1, mid[i].0@, nn, vv)
                                    == inputs_have_pair(take0, mid[i].0@, nn, vv));
                            }
                        }
                    }
                    // every parsed input so far has its group
                    assert forall|j: int|
                        0 <= j < take1.len() && parsed(#[trigger] take1[j]) implies result_has_key(
                        r@,
                        key_of_input(take1[j]),
                    ) by {
                        if j < idx as int {
                            assert(take0[j] == take1[j]);
                            assert(result_has_key(mid, key_of_input(take0[j]))) by {
                                if found {
                                    assert(result_has_key(pre, key_of_input(take0[j])));
                                    let w = choose|w: int|
                                        0 <= w < pre.len() && (#[trigger] pre[w]).0@
                                            == key_of_input(take0[j]);
                                    assert(mid[w] == pre[w]);
                                } else {
                                    assert(result_has_key(pre, key_of_input(take0[j])));
                                    let w = choose|w: int|
                                        0 <= w < pre.len() && (#[trigger] pre[w]).0@
                                            == key_of_input(take0[j]);
                                    if w < pos as int {
                                        assert(mid[w] == pre[w]);
                                    } else {
                                        assert(mid[w + 1] == pre[w]);
                                    }
                                }
                            }
                            let w = choose|w: int|
                                0 <= w < mid.len() && (#[trigger] mid[w]).0@ == key_of_input(
                                    take0[j],
                                );
                            assert(r@[w].0@ == mid[w].0@);
                        } else {
                            assert(take1[j] == gin);
                            assert(r@[pos as int].0@ == gkey);
                        }
                    }
                    // the shared backtrace handle
                    assert forall|i: int| 0 <= i < r@.len() implies (#[trigger] r@[i]).1.backtraces
                        == *backtraces by {
                        if i != pos as int {
                            assert(r@[i] == mid[i]);
                        }
                    }
                }
            },
        }
        idx = idx + 1;
        proof {
            assert(inputs.take(idx as int) == take1);
        }
    }
    proof {
        assert(inputs.take(n as int) =~= inputs);
    }
    r
}

} // verus!
