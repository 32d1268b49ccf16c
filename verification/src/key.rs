//! The grouping identity of an affected package.
//!
//! Two raw purl strings that parse to the same key are the same logical
//! package occurrence. Keys are ordered lexicographically over
//! (type, namespace, name, version, subpath, purl); consumers observe
//! groups sorted in exactly this field order.

use vstd::prelude::*;

use crate::order::Cmp;
use crate::order::lemma_opt_str_lt_connected;
use crate::order::lemma_opt_str_lt_irrefl;
use crate::order::lemma_opt_str_lt_trans;
use crate::order::lemma_str_lt_connected;
use crate::order::lemma_str_lt_irrefl;
use crate::order::lemma_str_lt_trans;
use crate::order::opt_str_cmp;
use crate::order::opt_str_lt;
use crate::order::opt_view;
use crate::order::str_cmp;
use crate::order::str_lt;
use crate::purl::PackageIdentifier;
use crate::purl::identifier_matches;
use crate::purl::purl_canon;
use crate::purl::purl_parse;

verus! {

/// The key's fields as plain mathematical values.
#[verifier::ext_equal]
pub struct KeyView {
    pub ty: Seq<char>,
    pub namespace: Option<Seq<char>>,
    pub name: Seq<char>,
    pub version: Option<Seq<char>>,
    pub subpath: Option<Seq<char>>,
    pub purl: Seq<char>,
}

/// The grouping key of an affected package: the structured purl fields
/// and the canonical purl text.
pub struct PackageKey {
    pub ty: String,
    pub namespace: Option<String>,
    pub name: String,
    pub version: Option<String>,
    pub subpath: Option<String>,
    pub purl: String,
}

impl View for PackageKey {
    type V = KeyView;

    open spec fn view(&self) -> KeyView {
        KeyView {
            ty: self.ty@,
            namespace: opt_view(self.namespace),
            name: self.name@,
            version: opt_view(self.version),
            subpath: opt_view(self.subpath),
            purl: self.purl@,
        }
    }
}

/// The key an identifier groups under.
pub open spec fn key_of_id(id: PackageIdentifier) -> KeyView {
    KeyView {
        ty: id.ty@,
        namespace: opt_view(id.namespace),
        name: id.name@,
        version: opt_view(id.version),
        subpath: opt_view(id.subpath),
        purl: id.purl@,
    }
}

/// The key a raw input string groups under, where it parses.
pub open spec fn key_of_input(s: Seq<char>) -> KeyView
    recommends
        purl_parse(s) is Some,
{
    KeyView {
        ty: purl_parse(s)->0.ty,
        namespace: purl_parse(s)->0.namespace,
        name: purl_parse(s)->0.name,
        version: purl_parse(s)->0.version,
        subpath: purl_parse(s)->0.subpath,
        purl: purl_canon(s),
    }
}

pub proof fn lemma_key_of_matching_id(id: PackageIdentifier, s: Seq<char>)
    requires
        identifier_matches(id, s),
    ensures
        key_of_id(id) =~= key_of_input(s),
{
}

/// Strict lexicographic order over (type, namespace, name, version,
/// subpath, purl).
pub open spec fn key_lt(a: KeyView, b: KeyView) -> bool {
    if a.ty != b.ty {
        str_lt(a.ty, b.ty)
    } else if a.namespace != b.namespace {
        opt_str_lt(a.namespace, b.namespace)
    } else if a.name != b.name {
        str_lt(a.name, b.name)
    } else if a.version != b.version {
        opt_str_lt(a.version, b.version)
    } else if a.subpath != b.subpath {
        opt_str_lt(a.subpath, b.subpath)
    } else {
        str_lt(a.purl, b.purl)
    }
}

pub proof fn lemma_key_lt_irrefl(a: KeyView)
    ensures
        !key_lt(a, a),
{
    lemma_str_lt_irrefl(a.purl);
}

pub proof fn lemma_key_lt_connected(a: KeyView, b: KeyView)
    requires
        !key_lt(a, b),
        !key_lt(b, a),
    ensures
        a == b,
{
    if a.ty != b.ty {
        lemma_str_lt_connected(a.ty, b.ty);
    } else if a.namespace != b.namespace {
        lemma_opt_str_lt_connected(a.namespace, b.namespace);
    } else if a.name != b.name {
        lemma_str_lt_connected(a.name, b.name);
    } else if a.version != b.version {
        lemma_opt_str_lt_connected(a.version, b.version);
    } else if a.subpath != b.subpath {
        lemma_opt_str_lt_connected(a.subpath, b.subpath);
    } else {
        lemma_str_lt_connected(a.purl, b.purl);
        assert(a =~= b);
    }
}

pub proof fn lemma_key_lt_trans(a: KeyView, b: KeyView, c: KeyView)
    requires
        key_lt(a, b),
        key_lt(b, c),
    ensures
        key_lt(a, c),
{
    if a.ty != b.ty || b.ty != c.ty {
        if a.ty != b.ty && b.ty != c.ty {
            lemma_str_lt_trans(a.ty, b.ty, c.ty);
            if a.ty == c.ty {
                lemma_str_lt_irrefl(a.ty);
            }
        } else if a.ty != b.ty && b.ty == c.ty {
            if a.ty == c.ty {
                lemma_str_lt_irrefl(a.ty);
            }
        } else {
            if a.ty == c.ty {
                lemma_str_lt_irrefl(b.ty);
            }
        }
    } else if a.namespace != b.namespace || b.namespace != c.namespace {
        if a.namespace != b.namespace && b.namespace != c.namespace {
            lemma_opt_str_lt_trans(a.namespace, b.namespace, c.namespace);
            if a.namespace == c.namespace {
                lemma_opt_str_lt_irrefl(a.namespace);
            }
        } else if a.namespace != b.namespace && b.namespace == c.namespace {
            if a.namespace == c.namespace {
                lemma_opt_str_lt_irrefl(a.namespace);
            }
        } else {
            if a.namespace == c.namespace {
                lemma_opt_str_lt_irrefl(b.namespace);
            }
        }
    } else if a.name != b.name || b.name != c.name {
        if a.name != b.name && b.name != c.name {
            lemma_str_lt_trans(a.name, b.name, c.name);
            if a.name == c.name {
                lemma_str_lt_irrefl(a.name);
            }
        } else if a.name != b.name && b.name == c.name {
            if a.name == c.name {
                lemma_str_lt_irrefl(a.name);
            }
        } else {
            if a.name == c.name {
                lemma_str_lt_irrefl(b.name);
            }
        }
    } else if a.version != b.version || b.version != c.version {
        if a.version != b.version && b.version != c.version {
            lemma_opt_str_lt_trans(a.version, b.version, c.version);
            if a.version == c.version {
                lemma_opt_str_lt_irrefl(a.version);
            }
        } else if a.version != b.version && b.version == c.version {
            if a.version == c.version {
                lemma_opt_str_lt_irrefl(a.version);
            }
        } else {
            if a.version == c.version {
                lemma_opt_str_lt_irrefl(b.version);
            }
        }
    } else if a.subpath != b.subpath || b.subpath != c.subpath {
        if a.subpath != b.subpath && b.subpath != c.subpath {
            lemma_opt_str_lt_trans(a.subpath, b.subpath, c.subpath);
            if a.subpath == c.subpath {
                lemma_opt_str_lt_irrefl(a.subpath);
            }
        } else if a.subpath != b.subpath && b.subpath == c.subpath {
            if a.subpath == c.subpath {
                lemma_opt_str_lt_irrefl(a.subpath);
            }
        } else {
            if a.subpath == c.subpath {
                lemma_opt_str_lt_irrefl(b.subpath);
            }
        }
    } else {
        lemma_str_lt_trans(a.purl, b.purl, c.purl);
        if a.purl == c.purl {
            lemma_str_lt_irrefl(a.purl);
        }
    }
}

/// A copy of an optional string.
fn clone_opt(o: &Option<String>) -> (r: Option<String>)
    ensures
        r == *o,
{
    match o {
        Option::None => Option::None,
        Option::Some(s) => Option::Some(s.clone()),
    }
}

impl PackageKey {
    /// Derive the grouping key of a parsed identifier. Pure and total:
    /// the key copies the identifier's structured fields and canonical
    /// purl text.
    pub fn new(id: &PackageIdentifier) -> (k: PackageKey)
        ensures
            k@ == key_of_id(*id),
    {
        let k = PackageKey {
            ty: id.ty.clone(),
            namespace: clone_opt(&id.namespace),
            name: id.name.clone(),
            version: clone_opt(&id.version),
            subpath: clone_opt(&id.subpath),
            purl: id.purl.clone(),
        };
        proof {
            assert(k@ =~= key_of_id(*id));
        }
        k
    }
}

/// Three-way comparison of keys under `key_lt`.
pub fn key_cmp(a: &PackageKey, b: &PackageKey) -> (c: Cmp)
    ensures
        c is Lt <==> key_lt(a@, b@),
        c is Eq <==> a@ == b@,
        c is Gt <==> key_lt(b@, a@),
{
    let c = str_cmp(a.ty.as_str(), b.ty.as_str());
    if !matches!(c, Cmp::Eq) {
        return c;
    }
    let c = opt_str_cmp(&a.namespace, &b.namespace);
    if !matches!(c, Cmp::Eq) {
        return c;
    }
    let c = str_cmp(a.name.as_str(), b.name.as_str());
    if !matches!(c, Cmp::Eq) {
        return c;
    }
    let c = opt_str_cmp(&a.version, &b.version);
    if !matches!(c, Cmp::Eq) {
        return c;
    }
    let c = opt_str_cmp(&a.subpath, &b.subpath);
    if !matches!(c, Cmp::Eq) {
        return c;
    }
    let c = str_cmp(a.purl.as_str(), b.purl.as_str());
    proof {
        if c is Eq {
            assert(a@ =~= b@);
        }
        if a@ == b@ {
            lemma_str_lt_irrefl(a@.purl);
        }
    }
    c
}

} // verus!
