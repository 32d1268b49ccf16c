//! Properties of the aggregation engine, proved once for all inputs.

use vstd::prelude::*;

use crate::aggregate::AffectedPackage;
use crate::aggregate::PackageValue;
use crate::aggregate::aggregates;
use crate::aggregate::entries_sorted;
use crate::aggregate::entry_matches;
use crate::aggregate::input_quals;
use crate::aggregate::inputs_have_key;
use crate::aggregate::inputs_have_pair;
use crate::aggregate::inputs_have_qual;
use crate::aggregate::parsed;
use crate::aggregate::result_has_key;
use crate::aggregate::val_in;
use crate::aggregate::vals_sorted;
use crate::aggregate::value_has_name;
use crate::aggregate::value_has_pair;
use crate::aggregate::value_wf;
use crate::key::KeyView;
use crate::key::key_lt;
use crate::key::key_of_input;
use crate::key::lemma_key_lt_irrefl;
use crate::key::lemma_key_lt_trans;
use crate::order::lemma_str_lt_irrefl;
use crate::order::str_lt;

verus! {

/// The texts of a list of strings.
pub open spec fn seq_texts(vs: Seq<String>) -> Seq<Seq<char>> {
    vs.map_values(|s: String| s@)
}

/// The two values carry the same data, text for text.
pub open spec fn value_view_eq(a: PackageValue, b: PackageValue) -> bool {
    &&& a.backtraces@ == b.backtraces@
    &&& a.qualifiers@.len() == b.qualifiers@.len()
    &&& forall|i: int|
        0 <= i < a.qualifiers@.len() ==> (#[trigger] a.qualifiers@[i]).0@ == b.qualifiers@[i].0@
            && seq_texts(a.qualifiers@[i].1@) == seq_texts(b.qualifiers@[i].1@)
}

/// The two group lists carry the same groups in the same order, text
/// for text.
pub open spec fn groups_equal(r1: Seq<AffectedPackage>, r2: Seq<AffectedPackage>) -> bool {
    &&& r1.len() == r2.len()
    &&& forall|i: int| 0 <= i < r1.len() ==> (#[trigger] r1[i]).0@ == r2[i].0@
    &&& forall|i: int| 0 <= i < r1.len() ==> value_view_eq((#[trigger] r1[i]).1, r2[i].1)
}

/// Two strictly key-sorted group lists with the same key membership
/// list the same keys in the same order.
proof fn lemma_sorted_same_keys(r1: Seq<AffectedPackage>, r2: Seq<AffectedPackage>)
    requires
        entries_sorted(r1),
        entries_sorted(r2),
        forall|k: KeyView|
            #![trigger result_has_key(r1, k)]
            #![trigger result_has_key(r2, k)]
            result_has_key(r1, k) <==> result_has_key(r2, k),
    ensures
        r1.len() == r2.len(),
        forall|i: int| 0 <= i < r1.len() ==> (#[trigger] r1[i]).0@ == r2[i].0@,
    decreases r1.len(),
{
    if r1.len() == 0 {
        if r2.len() > 0 {
            assert(result_has_key(r2, r2[0].0@));
            assert(result_has_key(r1, r2[0].0@));
            assert(false);
        }
    } else {
        if r2.len() == 0 {
            assert(result_has_key(r1, r1[0].0@));
            assert(result_has_key(r2, r1[0].0@));
            assert(false);
        }
        assert(result_has_key(r1, r1[0].0@));
        assert(result_has_key(r2, r1[0].0@));
        let w = choose|w: int| 0 <= w < r2.len() && (#[trigger] r2[w]).0@ == r1[0].0@;
        assert(result_has_key(r2, r2[0].0@));
        assert(result_has_key(r1, r2[0].0@));
        let u = choose|u: int| 0 <= u < r1.len() && (#[trigger] r1[u]).0@ == r2[0].0@;
        if w > 0 {
            assert(key_lt(r2[0].0@, r2[w].0@));
            if u > 0 {
                assert(key_lt(r1[0].0@, r1[u].0@));
                lemma_key_lt_trans(r1[0].0@, r2[0].0@, r1[0].0@);
                lemma_key_lt_irrefl(r1[0].0@);
            } else {
                lemma_key_lt_irrefl(r2[0].0@);
            }
            assert(false);
        }
        assert(r2[0].0@ == r1[0].0@);
        let t1 = r1.drop_first();
        let t2 = r2.drop_first();
        assert forall|a: int, b: int| 0 <= a < b < t1.len() implies key_lt(
            (#[trigger] t1[a]).0@,
            (#[trigger] t1[b]).0@,
        ) by {
            assert(t1[a] == r1[a + 1] && t1[b] == r1[b + 1]);
        }
        assert forall|a: int, b: int| 0 <= a < b < t2.len() implies key_lt(
            (#[trigger] t2[a]).0@,
            (#[trigger] t2[b]).0@,
        ) by {
            assert(t2[a] == r2[a + 1] && t2[b] == r2[b + 1]);
        }
        assert forall|k: KeyView|
            #![trigger result_has_key(t1, k)]
            #![trigger result_has_key(t2, k)]
            result_has_key(t1, k) == result_has_key(t2, k) by {
            if result_has_key(t1, k) {
                let i = choose|i: int| 0 <= i < t1.len() && (#[trigger] t1[i]).0@ == k;
                assert(t1[i] == r1[i + 1]);
                assert(result_has_key(r1, k));
                if k == r1[0].0@ {
                    lemma_key_lt_irrefl(k);
                }
                assert(result_has_key(r2, k));
                let j = choose|j: int| 0 <= j < r2.len() && (#[trigger] r2[j]).0@ == k;
                assert(j != 0);
                assert(t2[j - 1] == r2[j]);
                assert(result_has_key(t2, k));
            }
            if result_has_key(t2, k) {
                let i = choose|i: int| 0 <= i < t2.len() && (#[trigger] t2[i]).0@ == k;
                assert(t2[i] == r2[i + 1]);
                assert(result_has_key(r2, k));
                if k == r2[0].0@ {
                    lemma_key_lt_irrefl(k);
                }
                assert(result_has_key(r1, k));
                let j = choose|j: int| 0 <= j < r1.len() && (#[trigger] r1[j]).0@ == k;
                assert(j != 0);
                assert(t1[j - 1] == r1[j]);
                assert(result_has_key(t1, k));
            }
        }
        lemma_sorted_same_keys(t1, t2);
        assert forall|i: int| 0 <= i < r1.len() implies (#[trigger] r1[i]).0@ == r2[i].0@ by {
            if i > 0 {
                assert(t1[i - 1] == r1[i] && t2[i - 1] == r2[i]);
                assert(t1[i - 1].0@ == t2[i - 1].0@);
            }
        }
    }
}

/// Two strictly sorted text lists with the same membership are equal,
/// text for text.
proof fn lemma_sorted_same_vals(x: Seq<String>, y: Seq<String>)
    requires
        vals_sorted(x),
        vals_sorted(y),
        forall|t: Seq<char>|
            #![trigger val_in(x, t)]
            #![trigger val_in(y, t)]
            val_in(x, t) <==> val_in(y, t),
    ensures
        x.len() == y.len(),
        forall|i: int| 0 <= i < x.len() ==> (#[trigger] x[i])@ == y[i]@,
    decreases x.len(),
{
    if x.len() == 0 {
        if y.len() > 0 {
            assert(val_in(y, y[0]@));
            assert(val_in(x, y[0]@));
            assert(false);
        }
    } else {
        if y.len() == 0 {
            assert(val_in(x, x[0]@));
            assert(val_in(y, x[0]@));
            assert(false);
        }
        assert(val_in(x, x[0]@));
        assert(val_in(y, x[0]@));
        let w = choose|w: int| 0 <= w < y.len() && (#[trigger] y[w])@ == x[0]@;
        assert(val_in(y, y[0]@));
        assert(val_in(x, y[0]@));
        let u = choose|u: int| 0 <= u < x.len() && (#[trigger] x[u])@ == y[0]@;
        if w > 0 {
            assert(str_lt(y[0]@, y[w]@));
            if u > 0 {
                assert(str_lt(x[0]@, x[u]@));
                crate::order::lemma_str_lt_trans(x[0]@, y[0]@, x[0]@);
                lemma_str_lt_irrefl(x[0]@);
            } else {
                lemma_str_lt_irrefl(y[0]@);
            }
            assert(false);
        }
        assert(y[0]@ == x[0]@);
        let t1 = x.drop_first();
        let t2 = y.drop_first();
        assert forall|a: int, b: int| 0 <= a < b < t1.len() implies str_lt(
            (#[trigger] t1[a])@,
            (#[trigger] t1[b])@,
        ) by {
            assert(t1[a] == x[a + 1] && t1[b] == x[b + 1]);
        }
        assert forall|a: int, b: int| 0 <= a < b < t2.len() implies str_lt(
            (#[trigger] t2[a])@,
            (#[trigger] t2[b])@,
        ) by {
            assert(t2[a] == y[a + 1] && t2[b] == y[b + 1]);
        }
        assert forall|t: Seq<char>|
            #![trigger val_in(t1, t)]
            #![trigger val_in(t2, t)]
            val_in(t1, t) == val_in(t2, t) by {
            if val_in(t1, t) {
                let i = choose|i: int| 0 <= i < t1.len() && (#[trigger] t1[i])@ == t;
                assert(t1[i] == x[i + 1]);
                assert(val_in(x, t));
                if t == x[0]@ {
                    lemma_str_lt_irrefl(t);
                }
                assert(val_in(y, t));
                let j = choose|j: int| 0 <= j < y.len() && (#[trigger] y[j])@ == t;
                assert(j != 0);
                assert(t2[j - 1] == y[j]);
                assert(val_in(t2, t));
            }
            if val_in(t2, t) {
                let i = choose|i: int| 0 <= i < t2.len() && (#[trigger] t2[i])@ == t;
                assert(t2[i] == y[i + 1]);
                assert(val_in(y, t));
                if t == y[0]@ {
                    lemma_str_lt_irrefl(t);
                }
                assert(val_in(x, t));
                let j = choose|j: int| 0 <= j < x.len() && (#[trigger] x[j])@ == t;
                assert(j != 0);
                assert(t1[j - 1] == x[j]);
                assert(val_in(t1, t));
            }
        }
        lemma_sorted_same_vals(t1, t2);
        assert forall|i: int| 0 <= i < x.len() implies (#[trigger] x[i])@ == y[i]@ by {
            if i > 0 {
                assert(t1[i - 1] == x[i] && t2[i - 1] == y[i]);
                assert(t1[i - 1]@ == t2[i - 1]@);
            }
        }
    }
}

/// Well-formed values that record the same names and the same pairs
/// carry the same data, text for text.
proof fn lemma_same_values(v1: PackageValue, v2: PackageValue)
    requires
        value_wf(v1),
        value_wf(v2),
        v1.backtraces@ == v2.backtraces@,
        forall|n: Seq<char>|
            #![trigger value_has_name(v1, n)]
            #![trigger value_has_name(v2, n)]
            value_has_name(v1, n) <==> value_has_name(v2, n),
        forall|n: Seq<char>, v: Seq<char>|
            #![trigger value_has_pair(v1, n, v)]
            #![trigger value_has_pair(v2, n, v)]
            value_has_pair(v1, n, v) <==> value_has_pair(v2, n, v),
    ensures
        value_view_eq(v1, v2),
    decreases v1.qualifiers@.len(),
{
    let q1 = v1.qualifiers@;
    let q2 = v2.qualifiers@;
    // the name lists agree: same membership, both strictly sorted
    assert forall|i: int| 0 <= i < q1.len() implies value_has_name(v2, (#[trigger] q1[i]).0@) by {
        assert(value_has_name(v1, q1[i].0@));
    }
    assert forall|i: int| 0 <= i < q2.len() implies value_has_name(v1, (#[trigger] q2[i]).0@) by {
        assert(value_has_name(v2, q2[i].0@));
    }
    lemma_same_name_lists(v1, v2);
    assert forall|i: int| 0 <= i < q1.len() implies (#[trigger] q1[i]).0@ == q2[i].0@
        && seq_texts(q1[i].1@) == seq_texts(q2[i].1@) by {
        let n = q1[i].0@;
        assert(q2[i].0@ == n);
        assert forall|t: Seq<char>|
            #![trigger val_in(q1[i].1@, t)]
            #![trigger val_in(q2[i].1@, t)]
            val_in(q1[i].1@, t) == val_in(q2[i].1@, t) by {
            assert(val_in(q1[i].1@, t) == value_has_pair(v1, n, t)) by {
                lemma_val_in_entry(v1, i, n, t);
            }
            assert(val_in(q2[i].1@, t) == value_has_pair(v2, n, t)) by {
                lemma_val_in_entry(v2, i, n, t);
            }
        }
        lemma_sorted_same_vals(q1[i].1@, q2[i].1@);
        assert(seq_texts(q1[i].1@) =~= seq_texts(q2[i].1@));
    }
}

/// Within a well-formed value, the pair predicate at an entry's own
/// name speaks exactly of that entry's value list.
proof fn lemma_val_in_entry(v: PackageValue, i: int, n: Seq<char>, t: Seq<char>)
    requires
        value_wf(v),
        0 <= i < v.qualifiers@.len(),
        v.qualifiers@[i].0@ == n,
    ensures
        val_in(v.qualifiers@[i].1@, t) == value_has_pair(v, n, t),
{
    if val_in(v.qualifiers@[i].1@, t) {
        let j = choose|j: int| 0 <= j < v.qualifiers@[i].1@.len() && (#[trigger] v.qualifiers@[i].1@[j])@ == t;
        assert(value_has_pair(v, n, t));
    }
    if value_has_pair(v, n, t) {
        let (a, b) = choose|a: int, b: int|
            0 <= a < v.qualifiers@.len() && v.qualifiers@[a].0@ == n && 0 <= b
                < v.qualifiers@[a].1@.len() && (#[trigger] v.qualifiers@[a].1@[b])@ == t;
        if a != i {
            if a < i {
                assert(str_lt(v.qualifiers@[a].0@, v.qualifiers@[i].0@));
            } else {
                assert(str_lt(v.qualifiers@[i].0@, v.qualifiers@[a].0@));
            }
            lemma_str_lt_irrefl(n);
        }
        assert(val_in(v.qualifiers@[i].1@, t));
    }
}

/// Two well-formed values with the same name membership list the same
/// names at the same positions.
proof fn lemma_same_name_lists(v1: PackageValue, v2: PackageValue)
    requires
        value_wf(v1),
        value_wf(v2),
        forall|i: int|
            0 <= i < v1.qualifiers@.len() ==> value_has_name(v2, (#[trigger] v1.qualifiers@[i]).0@),
        forall|i: int|
            0 <= i < v2.qualifiers@.len() ==> value_has_name(v1, (#[trigger] v2.qualifiers@[i]).0@),
    ensures
        v1.qualifiers@.len() == v2.qualifiers@.len(),
        forall|i: int|
            0 <= i < v1.qualifiers@.len() ==> (#[trigger] v1.qualifiers@[i]).0@
                == v2.qualifiers@[i].0@,
{
    let q1 = v1.qualifiers@;
    let q2 = v2.qualifiers@;
    if q1.len() > 0 {
        let i = q1.len() - 1;
        assert(value_has_name(v2, q1[i].0@));
        let j = choose|j: int| 0 <= j < q2.len() && (#[trigger] q2[j]).0@ == q1[i].0@;
        lemma_rank_unique(v1, v2, i, j);
        assert(q2.len() > i);
    }
    if q2.len() > 0 {
        let j = q2.len() - 1;
        assert(value_has_name(v1, q2[j].0@));
        let i = choose|i: int| 0 <= i < q1.len() && (#[trigger] q1[i]).0@ == q2[j].0@;
        lemma_rank_unique(v1, v2, i, j);
        assert(q1.len() > j);
    }
    assert forall|i: int| 0 <= i < q1.len() implies (#[trigger] q1[i]).0@ == q2[i].0@ by {
        assert(value_has_name(v2, q1[i].0@));
        let j = choose|j: int| 0 <= j < q2.len() && (#[trigger] q2[j]).0@ == q1[i].0@;
        lemma_rank_unique(v1, v2, i, j);
    }
}

/// A name shared by two strictly sorted lists that agree on membership
/// sits at the same rank in both.
proof fn lemma_rank_unique(v1: PackageValue, v2: PackageValue, i: int, j: int)
    requires
        value_wf(v1),
        value_wf(v2),
        forall|a: int|
            0 <= a < v1.qualifiers@.len() ==> value_has_name(v2, (#[trigger] v1.qualifiers@[a]).0@),
        forall|a: int|
            0 <= a < v2.qualifiers@.len() ==> value_has_name(v1, (#[trigger] v2.qualifiers@[a]).0@),
        0 <= i < v1.qualifiers@.len(),
        0 <= j < v2.qualifiers@.len(),
        v1.qualifiers@[i].0@ == v2.qualifiers@[j].0@,
    ensures
        i == j,
    decreases i + j,
{
    let q1 = v1.qualifiers@;
    let q2 = v2.qualifiers@;
    if i < j {
        // the name just below rank j on the right must sit strictly
        // below rank i on the left, so the two walks meet a step down
        assert(value_has_name(v1, q2[j - 1].0@));
        let a = choose|a: int| 0 <= a < q1.len() && (#[trigger] q1[a]).0@ == q2[j - 1].0@;
        assert(str_lt(q2[j - 1].0@, q2[j].0@));
        if a >= i {
            if a == i {
                lemma_str_lt_irrefl(q1[i].0@);
            } else {
                assert(str_lt(q1[i].0@, q1[a].0@));
                crate::order::lemma_str_lt_trans(q1[i].0@, q1[a].0@, q2[j].0@);
                lemma_str_lt_irrefl(q1[i].0@);
            }
        }
        lemma_rank_unique(v1, v2, a, j - 1);
        assert(false);
    } else if j < i {
        assert(value_has_name(v2, q1[i - 1].0@));
        let a = choose|a: int| 0 <= a < q2.len() && (#[trigger] q2[a]).0@ == q1[i - 1].0@;
        assert(str_lt(q1[i - 1].0@, q1[i].0@));
        if a >= j {
            if a == j {
                lemma_str_lt_irrefl(q2[j].0@);
            } else {
                assert(str_lt(q2[j].0@, q2[a].0@));
                crate::order::lemma_str_lt_trans(q2[j].0@, q2[a].0@, q1[i].0@);
                lemma_str_lt_irrefl(q2[j].0@);
            }
        }
        lemma_rank_unique(v1, v2, i - 1, a);
        assert(false);
    }
}

/// Aggregation is deterministic: any two group lists that aggregate the
/// same inputs over the same backtrace index are the same, text for
/// text. The group order is fully determined by the key order, never by
/// the order the inputs were walked in.
pub proof fn lemma_aggregation_deterministic(
    r1: Seq<AffectedPackage>,
    r2: Seq<AffectedPackage>,
    inputs: Seq<Seq<char>>,
    btv: Map<Seq<char>, Seq<Seq<Seq<char>>>>,
)
    requires
        aggregates(r1, inputs, btv),
        aggregates(r2, inputs, btv),
    ensures
        groups_equal(r1, r2),
{
    assert forall|k: KeyView|
        #![trigger result_has_key(r1, k)]
        #![trigger result_has_key(r2, k)]
        result_has_key(r1, k) == result_has_key(r2, k) by {
        if result_has_key(r1, k) {
            let i = choose|i: int| 0 <= i < r1.len() && (#[trigger] r1[i]).0@ == k;
            assert(entry_matches(r1, i, inputs));
            assert(inputs_have_key(inputs, k));
            let j = choose|j: int|
                0 <= j < inputs.len() && parsed(#[trigger] inputs[j]) && key_of_input(inputs[j])
                    == k;
            assert(result_has_key(r2, key_of_input(inputs[j])));
        }
        if result_has_key(r2, k) {
            let i = choose|i: int| 0 <= i < r2.len() && (#[trigger] r2[i]).0@ == k;
            assert(entry_matches(r2, i, inputs));
            assert(inputs_have_key(inputs, k));
            let j = choose|j: int|
                0 <= j < inputs.len() && parsed(#[trigger] inputs[j]) && key_of_input(inputs[j])
                    == k;
            assert(result_has_key(r1, key_of_input(inputs[j])));
        }
    }
    lemma_sorted_same_keys(r1, r2);
    assert forall|i: int| 0 <= i < r1.len() implies value_view_eq((#[trigger] r1[i]).1, r2[i].1) by {
        assert(entry_matches(r1, i, inputs));
        assert(entry_matches(r2, i, inputs));
        assert(r1[i].0@ == r2[i].0@);
        lemma_same_values(r1[i].1, r2[i].1);
    }
}

/// Qualifier union: where two inputs parse to the same key, one with
/// the qualifier pair `n = v1` and the other with `n = v2`, aggregation
/// yields exactly one group, whose set of values at `n` is exactly
/// `{v1, v2}` and which carries no other qualifier name.
pub proof fn lemma_qualifier_union(
    r: Seq<AffectedPackage>,
    s1: Seq<char>,
    s2: Seq<char>,
    btv: Map<Seq<char>, Seq<Seq<Seq<char>>>>,
    n: Seq<char>,
    v1: Seq<char>,
    v2: Seq<char>,
)
    requires
        aggregates(r, seq![s1, s2], btv),
        parsed(s1),
        parsed(s2),
        key_of_input(s1) == key_of_input(s2),
        input_quals(s1) == map![n => v1],
        input_quals(s2) == map![n => v2],
    ensures
        r.len() == 1,
        r[0].0@ == key_of_input(s1),
        forall|nn: Seq<char>| #[trigger] value_has_name(r[0].1, nn) <==> nn == n,
        forall|vv: Seq<char>| #[trigger] value_has_pair(r[0].1, n, vv) <==> vv == v1 || vv == v2,
{
    let inputs = seq![s1, s2];
    let k = key_of_input(s1);
    assert(inputs[0] == s1 && inputs[1] == s2);
    assert(parsed(inputs[0]));
    assert(result_has_key(r, k));
    let w = choose|w: int| 0 <= w < r.len() && (#[trigger] r[w]).0@ == k;
    assert forall|i: int| 0 <= i < r.len() implies (#[trigger] r[i]).0@ == k by {
        assert(entry_matches(r, i, inputs));
        assert(inputs_have_key(inputs, r[i].0@));
        let j = choose|j: int|
            0 <= j < inputs.len() && parsed(#[trigger] inputs[j]) && key_of_input(inputs[j])
                == r[i].0@;
    }
    if r.len() > 1 {
        assert(key_lt(r[0].0@, r[1].0@));
        lemma_key_lt_irrefl(k);
    }
    assert(r.len() == 1);
    assert(entry_matches(r, 0, inputs));
    assert forall|nn: Seq<char>| #[trigger] value_has_name(r[0].1, nn) == (nn == n) by {
        assert(value_has_name(r[0].1, nn) == inputs_have_qual(inputs, k, nn));
        if nn == n {
            assert(input_quals(inputs[0]).dom().contains(n));
            assert(inputs_have_qual(inputs, k, n));
        }
        if inputs_have_qual(inputs, k, nn) {
            let j = choose|j: int|
                0 <= j < inputs.len() && parsed(#[trigger] inputs[j]) && key_of_input(inputs[j])
                    == k && input_quals(inputs[j]).dom().contains(nn);
            assert(nn == n);
        }
    }
    assert forall|vv: Seq<char>| #[trigger] value_has_pair(r[0].1, n, vv) == (vv == v1 || vv
        == v2) by {
        assert(value_has_pair(r[0].1, n, vv) == inputs_have_pair(inputs, k, n, vv));
        if vv == v1 {
            assert(input_quals(inputs[0]).contains_pair(n, v1));
            assert(inputs_have_pair(inputs, k, n, v1));
        }
        if vv == v2 {
            assert(input_quals(inputs[1]).contains_pair(n, v2));
            assert(inputs_have_pair(inputs, k, n, v2));
        }
        if inputs_have_pair(inputs, k, n, vv) {
            let j = choose|j: int|
                0 <= j < inputs.len() && parsed(#[trigger] inputs[j]) && key_of_input(inputs[j])
                    == k && input_quals(inputs[j]).contains_pair(n, vv);
            assert(vv == v1 || vv == v2);
        }
    }
}

} // verus!
