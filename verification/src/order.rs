//! Lexicographic ordering over strings and optional strings.
//!
//! Package groups are sorted by a composite key whose fields are strings;
//! this module defines the order those comparisons use, proves that it is
//! a strict total order, and provides executable comparators.

use vstd::prelude::*;

verus! {

/// Outcome of a three-way comparison.
pub enum Cmp {
    Lt,
    Eq,
    Gt,
}

/// Strict lexicographic order on character sequences: a shorter sequence
/// precedes any extension of it, and otherwise the first differing
/// character decides.
pub open spec fn str_lt(a: Seq<char>, b: Seq<char>) -> bool
    decreases a.len(),
{
    if b.len() == 0 {
        false
    } else if a.len() == 0 {
        true
    } else if a[0] != b[0] {
        a[0] < b[0]
    } else {
        str_lt(a.drop_first(), b.drop_first())
    }
}

pub proof fn lemma_str_lt_irrefl(a: Seq<char>)
    ensures
        !str_lt(a, a),
    decreases a.len(),
{
    if a.len() > 0 {
        lemma_str_lt_irrefl(a.drop_first());
    }
}

pub proof fn lemma_str_lt_asym(a: Seq<char>, b: Seq<char>)
    requires
        str_lt(a, b),
    ensures
        !str_lt(b, a),
    decreases a.len(),
{
    if a.len() > 0 && b.len() > 0 && a[0] == b[0] {
        lemma_str_lt_asym(a.drop_first(), b.drop_first());
    }
}

pub proof fn lemma_str_lt_connected(a: Seq<char>, b: Seq<char>)
    requires
        !str_lt(a, b),
        !str_lt(b, a),
    ensures
        a == b,
    decreases a.len(),
{
    if a.len() == 0 && b.len() == 0 {
        assert(a =~= b);
    } else if a.len() > 0 && b.len() > 0 {
        assert(a[0] == b[0]);
        lemma_str_lt_connected(a.drop_first(), b.drop_first());
        assert(a.len() == b.len());
        assert forall|j: int| 0 <= j < a.len() implies a[j] == b[j] by {
            if j > 0 {
                assert(a[j] == a.drop_first()[j - 1]);
                assert(b[j] == b.drop_first()[j - 1]);
            }
        }
        assert(a =~= b);
    }
}

pub proof fn lemma_str_lt_trans(a: Seq<char>, b: Seq<char>, c: Seq<char>)
    requires
        str_lt(a, b),
        str_lt(b, c),
    ensures
        str_lt(a, c),
    decreases a.len() + b.len() + c.len(),
{
    if a.len() == 0 {
        assert(c.len() > 0);
    } else {
        assert(b.len() > 0 && c.len() > 0);
        if a[0] == b[0] && b[0] == c[0] {
            lemma_str_lt_trans(a.drop_first(), b.drop_first(), c.drop_first());
        }
    }
}

/// If `a` and `b` agree on their first `i` characters, the comparison is
/// decided by the remainders.
proof fn lemma_str_lt_skip(a: Seq<char>, b: Seq<char>, i: int)
    requires
        0 <= i <= a.len(),
        i <= b.len(),
        forall|j: int| 0 <= j < i ==> a[j] == b[j],
    ensures
        str_lt(a, b) == str_lt(a.skip(i), b.skip(i)),
    decreases i,
{
    if i == 0 {
        assert(a.skip(0) =~= a);
        assert(b.skip(0) =~= b);
    } else {
        assert(a[0] == b[0]);
        assert(a.drop_first().skip(i - 1) =~= a.skip(i));
        assert(b.drop_first().skip(i - 1) =~= b.skip(i));
        assert(forall|j: int| 0 <= j < i - 1 ==> a.drop_first()[j] == b.drop_first()[j]);
        lemma_str_lt_skip(a.drop_first(), b.drop_first(), i - 1);
    }
}

/// Three-way comparison of two string slices under `str_lt`.
pub fn str_cmp(a: &str, b: &str) -> (c: Cmp)
    ensures
        c is Lt <==> str_lt(a@, b@),
        c is Eq <==> a@ == b@,
        c is Gt <==> str_lt(b@, a@),
{
    let alen = a.unicode_len();
    let blen = b.unicode_len();
    let mut i: usize = 0;
    while i < alen && i < blen
        invariant
            0 <= i <= alen,
            i <= blen,
            alen == a@.len(),
            blen == b@.len(),
            forall|j: int| 0 <= j < i ==> a@[j] == b@[j],
        decreases alen - i,
    {
        let ca = a.get_char(i);
        let cb = b.get_char(i);
        if ca != cb {
            proof {
                lemma_str_lt_skip(a@, b@, i as int);
                lemma_str_lt_skip(b@, a@, i as int);
                assert(a@.skip(i as int)[0] == ca);
                assert(b@.skip(i as int)[0] == cb);
                assert(a@.skip(i as int).len() > 0);
                assert(b@.skip(i as int).len() > 0);
                if ca < cb {
                    assert(str_lt(a@, b@));
                    lemma_str_lt_asym(a@, b@);
                } else {
                    assert(cb < ca);
                    assert(str_lt(b@, a@));
                    lemma_str_lt_asym(b@, a@);
                }
                if str_lt(a@, b@) {
                    lemma_str_lt_irrefl(a@);
                }
            }
            if ca < cb {
                return Cmp::Lt;
            } else {
                return Cmp::Gt;
            }
        }
        i = i + 1;
    }
    proof {
        lemma_str_lt_skip(a@, b@, i as int);
        lemma_str_lt_skip(b@, a@, i as int);
    }
    if alen == blen {
        proof {
            assert(a@ =~= b@);
            lemma_str_lt_irrefl(a@);
        }
        Cmp::Eq
    } else if alen < blen {
        proof {
            assert(a@.skip(i as int).len() == 0);
            assert(b@.skip(i as int).len() > 0);
            lemma_str_lt_asym(a@, b@);
            lemma_str_lt_irrefl(a@);
            assert(a@ != b@) by {
                if a@ == b@ {
                    assert(a@.len() == b@.len());
                }
            }
        }
        Cmp::Lt
    } else {
        proof {
            assert(b@.skip(i as int).len() == 0);
            assert(a@.skip(i as int).len() > 0);
            lemma_str_lt_asym(b@, a@);
            lemma_str_lt_irrefl(b@);
            assert(a@ != b@) by {
                if a@ == b@ {
                    assert(a@.len() == b@.len());
                }
            }
        }
        Cmp::Gt
    }
}

/// Order on optional strings: absence precedes presence, as with the
/// standard ordering on `Option`.
pub open spec fn opt_str_lt(a: Option<Seq<char>>, b: Option<Seq<char>>) -> bool {
    match (a, b) {
        (Option::None, Option::None) => false,
        (Option::None, Option::Some(_)) => true,
        (Option::Some(_), Option::None) => false,
        (Option::Some(x), Option::Some(y)) => str_lt(x, y),
    }
}

pub proof fn lemma_opt_str_lt_irrefl(a: Option<Seq<char>>)
    ensures
        !opt_str_lt(a, a),
{
    if a is Some {
        lemma_str_lt_irrefl(a->0);
    }
}

pub proof fn lemma_opt_str_lt_connected(a: Option<Seq<char>>, b: Option<Seq<char>>)
    requires
        !opt_str_lt(a, b),
        !opt_str_lt(b, a),
    ensures
        a == b,
{
    match (a, b) {
        (Option::Some(x), Option::Some(y)) => {
            lemma_str_lt_connected(x, y);
        },
        _ => {},
    }
}

pub proof fn lemma_opt_str_lt_trans(a: Option<Seq<char>>, b: Option<Seq<char>>, c: Option<
    Seq<char>,
>)
    requires
        opt_str_lt(a, b),
        opt_str_lt(b, c),
    ensures
        opt_str_lt(a, c),
{
    match (a, c) {
        (Option::Some(x), Option::Some(z)) => {
            lemma_str_lt_trans(x, b->0, z);
        },
        _ => {},
    }
}

/// View of an optional string.
pub open spec fn opt_view(o: Option<String>) -> Option<Seq<char>> {
    match o {
        Option::None => Option::None,
        Option::Some(s) => Option::Some(s@),
    }
}

/// Three-way comparison of optional strings under `opt_str_lt`.
pub fn opt_str_cmp(a: &Option<String>, b: &Option<String>) -> (c: Cmp)
    ensures
        c is Lt <==> opt_str_lt(opt_view(*a), opt_view(*b)),
        c is Eq <==> opt_view(*a) == opt_view(*b),
        c is Gt <==> opt_str_lt(opt_view(*b), opt_view(*a)),
{
    match (a, b) {
        (Option::None, Option::None) => Cmp::Eq,
        (Option::None, Option::Some(_)) => Cmp::Lt,
        (Option::Some(_), Option::None) => Cmp::Gt,
        (Option::Some(x), Option::Some(y)) => str_cmp(x.as_str(), y.as_str()),
    }
}

} // verus!
