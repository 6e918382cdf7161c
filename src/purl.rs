//! Package URLs and the identifiers derived from them.

use vstd::prelude::*;
use vstd::utf8::encode_utf8;
use crate::text::{chars_lt, str_eq, str_lt};
use crate::text::{lemma_chars_lt_irreflexive, lemma_chars_lt_total, lemma_chars_lt_asymmetric, lemma_chars_lt_transitive};

verus! {

/// The name-based (version 5) UUID of `name` under `namespace`, both UUIDs
/// held as their 128-bit big-endian value.
pub uninterp spec fn uuid_v5(namespace: u128, name: Seq<u8>) -> u128;

/// Relies on `uuid::Uuid::new_v5`: the SHA-1 name-based UUID, which depends on
/// the namespace and the name bytes alone.
#[verifier::external_body]
pub(crate) fn new_v5(namespace: u128, name: &[u8]) -> (r: u128)
    ensures
        r == uuid_v5(namespace, name@),
{
    uuid::Uuid::new_v5(&uuid::Uuid::from_u128(namespace), name).as_u128()
}

/// The fixed namespace under which package identifiers are derived.
pub const NAMESPACE: u128 = 0x3738b43dfd034a9d849c489bec610f06;

pub type Qualifiers = Seq<(Seq<char>, Seq<char>)>;

/// What a package URL stands for.
pub struct PurlView {
    pub ty: Seq<char>,
    pub namespace: Option<Seq<char>>,
    pub name: Seq<char>,
    pub version: Option<Seq<char>>,
    pub qualifiers: Qualifiers,
}

/// A package URL. Its qualifiers are held ordered by key, each key once.
#[derive(Clone, Debug)]
pub struct Purl {
    pub ty: String,
    pub namespace: Option<String>,
    pub name: String,
    pub version: Option<String>,
    pub qualifiers: Vec<(String, String)>,
}

pub open spec fn opt_view(o: Option<String>) -> Option<Seq<char>> {
    match o {
        Some(s) => Some(s@),
        None => None,
    }
}

pub open spec fn pairs_view(v: Seq<(String, String)>) -> Qualifiers {
    v.map_values(|p: (String, String)| (p.0@, p.1@))
}

impl View for Purl {
    type V = PurlView;

    open spec fn view(&self) -> PurlView {
        PurlView {
            ty: self.ty@,
            namespace: opt_view(self.namespace),
            name: self.name@,
            version: opt_view(self.version),
            qualifiers: pairs_view(self.qualifiers@),
        }
    }
}

/// Keys strictly increasing: ordered, and no key twice.
pub open spec fn keys_sorted(q: Qualifiers) -> bool {
    forall|i: int, j: int| 0 <= i < j < q.len() ==> chars_lt(#[trigger] q[i].0, #[trigger] q[j].0)
}

/// The qualifiers as a map, a later pair for a key replacing an earlier one.
pub open spec fn qualifier_map(q: Qualifiers) -> Map<Seq<char>, Seq<char>>
    decreases q.len(),
{
    if q.len() == 0 {
        Map::empty()
    } else {
        qualifier_map(q.drop_last()).insert(q.last().0, q.last().1)
    }
}

/// `q` with the pair `(k, v)` put in its place by key, replacing the value of
/// an equal key.
pub open spec fn insert_sorted(q: Qualifiers, k: Seq<char>, v: Seq<char>) -> Qualifiers
    decreases q.len(),
{
    if q.len() == 0 {
        seq![(k, v)]
    } else if q[0].0 == k {
        q.update(0, (k, v))
    } else if chars_lt(k, q[0].0) {
        seq![(k, v)] + q
    } else {
        seq![q[0]] + insert_sorted(q.drop_first(), k, v)
    }
}

/// The ordered form of a list of qualifier pairs, as a map built from it in
/// order would iterate them.
pub open spec fn normalize(q: Qualifiers) -> Qualifiers
    decreases q.len(),
{
    if q.len() == 0 {
        seq![]
    } else {
        let last = q.last();
        insert_sorted(normalize(q.drop_last()), last.0, last.1)
    }
}

pub open spec fn bytes_of(s: Seq<char>) -> Seq<u8> {
    encode_utf8(s)
}

pub open spec fn spec_package_uuid(p: PurlView) -> u128 {
    let base = uuid_v5(NAMESPACE, bytes_of(p.ty));
    let ns = match p.namespace {
        Some(n) => uuid_v5(base, bytes_of(n)),
        None => base,
    };
    uuid_v5(ns, bytes_of(p.name))
}

pub open spec fn spec_then_version_uuid(p: PurlView, package: u128) -> u128 {
    match p.version {
        Some(v) => uuid_v5(package, bytes_of(v)),
        None => uuid_v5(package, Seq::empty()),
    }
}

pub open spec fn spec_version_uuid(p: PurlView) -> u128 {
    spec_then_version_uuid(p, spec_package_uuid(p))
}

/// Folds key, then value, of each qualifier into `acc`, in order.
pub open spec fn fold_qualifiers(acc: u128, q: Qualifiers) -> u128
    decreases q.len(),
{
    if q.len() == 0 {
        acc
    } else {
        fold_qualifiers(uuid_v5(uuid_v5(acc, bytes_of(q[0].0)), bytes_of(q[0].1)), q.drop_first())
    }
}

pub open spec fn spec_qualifier_uuid(p: PurlView) -> u128 {
    fold_qualifiers(spec_version_uuid(p), p.qualifiers)
}

pub proof fn lemma_insert_sorted(q: Qualifiers, k: Seq<char>, v: Seq<char>)
    requires
        keys_sorted(q),
    ensures
        keys_sorted(insert_sorted(q, k, v)),
        qualifier_map(insert_sorted(q, k, v)) == qualifier_map(q).insert(k, v),
        insert_sorted(q, k, v).len() <= q.len() + 1,
        forall|i: int| 0 <= i < insert_sorted(q, k, v).len() ==>
            (#[trigger] insert_sorted(q, k, v)[i]).0 == k
            || exists|j: int| 0 <= j < q.len() && q[j].0 == insert_sorted(q, k, v)[i].0,
    decreases q.len(),
{
    lemma_sorted_map(q);
    let r = insert_sorted(q, k, v);
    if q.len() == 0 {
        lemma_map_one(r);
    } else if q[0].0 == k {
        assert forall|i: int, j: int| 0 <= i < j < r.len() implies chars_lt(#[trigger] r[i].0, #[trigger] r[j].0) by {
            assert(q[i].0 == r[i].0 && q[j].0 == r[j].0);
        }
        lemma_sorted_map(r);
        assert forall|i: int| 0 <= i < r.len() implies (#[trigger] r[i]).0 == k
            || exists|j: int| 0 <= j < q.len() && q[j].0 == r[i].0 by {
            assert(q[i].0 == r[i].0);
        }
        assert(qualifier_map(r) =~= qualifier_map(q).insert(k, v)) by {
            lemma_sorted_map(q);
            lemma_sorted_map(r);
            assert forall|key| #[trigger] qualifier_map(r).contains_key(key) <==> qualifier_map(q).insert(k, v).contains_key(key) by {
                if qualifier_map(q).contains_key(key) {
                    let j = choose|j: int| 0 <= j < q.len() && q[j].0 == key;
                    assert(r[j].0 == key);
                }
                if qualifier_map(r).contains_key(key) {
                    let j = choose|j: int| 0 <= j < r.len() && r[j].0 == key;
                    assert(q[j].0 == key);
                }
            }
            assert forall|key| #[trigger] qualifier_map(r).contains_key(key) implies qualifier_map(r)[key] == qualifier_map(q).insert(k, v)[key] by {
                let j = choose|j: int| 0 <= j < r.len() && r[j].0 == key;
                if j == 0 {
                } else {
                    assert(q[j] == r[j]);
                    lemma_chars_lt_irreflexive(key);
                }
            }
        }
    } else if chars_lt(k, q[0].0) {
        assert forall|i: int, j: int| 0 <= i < j < r.len() implies chars_lt(#[trigger] r[i].0, #[trigger] r[j].0) by {
            if i == 0 {
                if j > 1 {
                    lemma_chars_lt_transitive(k, q[0].0, q[j - 1].0);
                }
            } else {
                assert(r[i] == q[i - 1] && r[j] == q[j - 1]);
            }
        }
        lemma_sorted_map(r);
        assert forall|i: int| 0 <= i < r.len() implies (#[trigger] r[i]).0 == k
            || exists|j: int| 0 <= j < q.len() && q[j].0 == r[i].0 by {
            if i > 0 {
                assert(q[i - 1].0 == r[i].0);
            }
        }
        lemma_same_entries_map(r, q, k, v);
    } else {
        let t = q.drop_first();
        assert(keys_sorted(t)) by {
            assert forall|i: int, j: int| 0 <= i < j < t.len() implies chars_lt(#[trigger] t[i].0, #[trigger] t[j].0) by {
                assert(t[i] == q[i + 1] && t[j] == q[j + 1]);
            }
        }
        lemma_insert_sorted(t, k, v);
        let it = insert_sorted(t, k, v);
        assert(r == seq![q[0]] + it);
        lemma_chars_lt_total(k, q[0].0);
        assert forall|i: int, j: int| 0 <= i < j < r.len() implies chars_lt(#[trigger] r[i].0, #[trigger] r[j].0) by {
            if i == 0 {
                assert(r[j] == it[j - 1]);
                if it[j - 1].0 != k {
                    let m = choose|m: int| 0 <= m < t.len() && t[m].0 == it[j - 1].0;
                    assert(t[m] == q[m + 1]);
                }
            } else {
                assert(r[i] == it[i - 1] && r[j] == it[j - 1]);
            }
        }
        assert forall|i: int| 0 <= i < r.len() implies (#[trigger] r[i]).0 == k
            || exists|j: int| 0 <= j < q.len() && q[j].0 == r[i].0 by {
            if i == 0 {
                assert(q[0].0 == r[0].0);
            } else {
                assert(r[i] == it[i - 1]);
                if it[i - 1].0 != k {
                    let m = choose|m: int| 0 <= m < t.len() && t[m].0 == it[i - 1].0;
                    assert(q[m + 1].0 == r[i].0);
                }
            }
        }
        lemma_sorted_map(r);
        lemma_sorted_map(t);
        lemma_sorted_map(it);
        assert(qualifier_map(r) =~= qualifier_map(q).insert(k, v)) by {
            assert forall|key| #[trigger] qualifier_map(r).contains_key(key) <==> qualifier_map(q).insert(k, v).contains_key(key) by {
                if qualifier_map(q).contains_key(key) && key != k {
                    let j = choose|j: int| 0 <= j < q.len() && q[j].0 == key;
                    if j == 0 {
                        assert(r[0].0 == key);
                    } else {
                        assert(t[j - 1].0 == key);
                        assert(qualifier_map(it).contains_key(key));
                        let m = choose|m: int| 0 <= m < it.len() && it[m].0 == key;
                        assert(r[m + 1].0 == key);
                    }
                }
                if key == k {
                    assert(qualifier_map(it).contains_key(k));
                    let m = choose|m: int| 0 <= m < it.len() && it[m].0 == k;
                    assert(r[m + 1].0 == k);
                }
                if qualifier_map(r).contains_key(key) {
                    let j = choose|j: int| 0 <= j < r.len() && r[j].0 == key;
                    if j == 0 {
                        assert(q[0].0 == key);
                    } else {
                        assert(it[j - 1].0 == key);
                        assert(qualifier_map(it).contains_key(key));
                        if key != k {
                            assert(qualifier_map(t).contains_key(key));
                            let m = choose|m: int| 0 <= m < t.len() && t[m].0 == key;
                            assert(q[m + 1].0 == key);
                        }
                    }
                }
            }
            assert forall|key| #[trigger] qualifier_map(r).contains_key(key) implies qualifier_map(r)[key] == qualifier_map(q).insert(k, v)[key] by {
                let j = choose|j: int| 0 <= j < r.len() && r[j].0 == key;
                if j == 0 {
                    assert(q[0] == r[0]);
                } else {
                    assert(it[j - 1] == r[j]);
                    assert(qualifier_map(it).contains_key(it[j - 1].0));
                    assert(qualifier_map(r).contains_key(r[j].0));
                    if key != k {
                        assert(qualifier_map(it).contains_key(key));
                        assert(qualifier_map(t).contains_key(key));
                        let m = choose|m: int| 0 <= m < t.len() && t[m].0 == key;
                        assert(q[m + 1] == t[m]);
                        assert(qualifier_map(t).contains_key(t[m].0));
                        assert(qualifier_map(q).contains_key(q[m + 1].0));
                    }
                }
            }
        }
    }
}

/// Prepending a pair whose key orders before every key of `q`.
proof fn lemma_same_entries_map(r: Qualifiers, q: Qualifiers, k: Seq<char>, v: Seq<char>)
    requires
        keys_sorted(q),
        keys_sorted(r),
        r == seq![(k, v)] + q,
    ensures
        qualifier_map(r) == qualifier_map(q).insert(k, v),
{
    lemma_sorted_map(q);
    lemma_sorted_map(r);
    assert forall|key| #[trigger] qualifier_map(r).contains_key(key) <==> qualifier_map(q).insert(k, v).contains_key(key) by {
        if qualifier_map(q).contains_key(key) {
            let j = choose|j: int| 0 <= j < q.len() && q[j].0 == key;
            assert(r[j + 1].0 == key);
        }
        if qualifier_map(r).contains_key(key) && key != k {
            let j = choose|j: int| 0 <= j < r.len() && r[j].0 == key;
            assert(q[j - 1].0 == key);
        }
        if key == k {
            assert(r[0].0 == k);
        }
    }
    assert forall|key| #[trigger] qualifier_map(r).contains_key(key) implies qualifier_map(r)[key] == qualifier_map(q).insert(k, v)[key] by {
        let j = choose|j: int| 0 <= j < r.len() && r[j].0 == key;
        if j > 0 {
            assert(r[j] == q[j - 1]);
            assert(chars_lt(r[0].0, r[j].0));
            lemma_chars_lt_irreflexive(key);
        }
    }
    assert(qualifier_map(r) =~= qualifier_map(q).insert(k, v));
}

proof fn lemma_map_one(r: Qualifiers)
    requires
        r.len() == 1,
    ensures
        qualifier_map(r) == Map::<Seq<char>, Seq<char>>::empty().insert(r[0].0, r[0].1),
{
    assert(r.drop_last() =~= Seq::<(Seq<char>, Seq<char>)>::empty());
    assert(qualifier_map(r.drop_last()) == Map::<Seq<char>, Seq<char>>::empty());
}

/// The map of sorted qualifiers holds exactly their pairs.
pub proof fn lemma_sorted_map(q: Qualifiers)
    requires
        keys_sorted(q),
    ensures
        forall|key| #[trigger] qualifier_map(q).contains_key(key) <==> exists|j: int| 0 <= j < q.len() && q[j].0 == key,
        forall|j: int| 0 <= j < q.len() ==> #[trigger] qualifier_map(q).contains_key(q[j].0) && qualifier_map(q)[q[j].0] == q[j].1,
    decreases q.len(),
{
    if q.len() > 0 {
        let p = q.drop_last();
        assert(keys_sorted(p)) by {
            assert forall|i: int, j: int| 0 <= i < j < p.len() implies chars_lt(#[trigger] p[i].0, #[trigger] p[j].0) by {
                assert(p[i] == q[i] && p[j] == q[j]);
            }
        }
        lemma_sorted_map(p);
        assert(qualifier_map(q) == qualifier_map(p).insert(q.last().0, q.last().1));
        assert forall|key| #[trigger] qualifier_map(q).contains_key(key) implies exists|j: int| 0 <= j < q.len() && q[j].0 == key by {
            if key != q.last().0 {
                let j = choose|j: int| 0 <= j < p.len() && p[j].0 == key;
                assert(q[j].0 == key);
            } else {
                assert(q[q.len() - 1].0 == key);
            }
        }
        assert forall|key| (exists|j: int| 0 <= j < q.len() && q[j].0 == key) implies #[trigger] qualifier_map(q).contains_key(key) by {
            let j = choose|j: int| 0 <= j < q.len() && q[j].0 == key;
            if j < q.len() - 1 {
                assert(p[j].0 == key);
            }
        }
        assert forall|j: int| 0 <= j < q.len() implies #[trigger] qualifier_map(q).contains_key(q[j].0) && qualifier_map(q)[q[j].0] == q[j].1 by {
            if j < q.len() - 1 {
                assert(p[j] == q[j]);
                assert(chars_lt(q[j].0, q.last().0));
                lemma_chars_lt_irreflexive(q[j].0);
            }
        }
    }
}

proof fn lemma_insert_prefix(q: Qualifiers, k: Seq<char>, v: Seq<char>, i: int)
    requires
        0 <= i <= q.len(),
        forall|j: int| 0 <= j < i ==> (#[trigger] q[j]).0 != k && !chars_lt(k, q[j].0),
    ensures
        insert_sorted(q, k, v) == q.subrange(0, i) + insert_sorted(q.subrange(i, q.len() as int), k, v),
    decreases i,
{
    if i == 0 {
        assert(q.subrange(0, 0) + insert_sorted(q.subrange(0, q.len() as int), k, v) =~= insert_sorted(q, k, v)) by {
            assert(q.subrange(0, q.len() as int) =~= q);
        }
    } else {
        let t = q.drop_first();
        assert forall|j: int| 0 <= j < i - 1 implies (#[trigger] t[j]).0 != k && !chars_lt(k, t[j].0) by {
            assert(t[j] == q[j + 1]);
        }
        lemma_insert_prefix(t, k, v, i - 1);
        assert(t.subrange(i - 1, t.len() as int) =~= q.subrange(i, q.len() as int));
        assert(seq![q[0]] + t.subrange(0, i - 1) =~= q.subrange(0, i));
    }
}

/// Puts `(k, v)` into the ordered qualifiers, replacing the value of an equal key.
fn insert_qualifier(q: &mut Vec<(String, String)>, k: String, v: String)
    requires
        keys_sorted(pairs_view(old(q)@)),
    ensures
        pairs_view(final(q)@) == insert_sorted(pairs_view(old(q)@), k@, v@),
        keys_sorted(pairs_view(final(q)@)),
{
    proof {
        lemma_insert_sorted(pairs_view(q@), k@, v@);
    }
    let ghost pv = pairs_view(q@);
    let mut i: usize = 0;
    while i < q.len()
        invariant
            pv == pairs_view(q@),
            i <= q.len(),
            forall|j: int| 0 <= j < i ==> (#[trigger] pv[j]).0 != k@ && !chars_lt(k@, pv[j].0),
        ensures
            pv == pairs_view(q@),
            i <= q.len(),
            forall|j: int| 0 <= j < i ==> (#[trigger] pv[j]).0 != k@ && !chars_lt(k@, pv[j].0),
            i < q.len() ==> (pv[i as int].0 == k@ || chars_lt(k@, pv[i as int].0)),
        decreases q.len() - i,
    {
        let eq = str_eq(q[i].0.as_str(), k.as_str());
        let lt = str_lt(k.as_str(), q[i].0.as_str());
        if eq || lt {
            break;
        }
        i = i + 1;
    }
    proof {
        lemma_insert_prefix(pv, k@, v@, i as int);
    }
    let ghost tail = pv.subrange(i as int, pv.len() as int);
    if i < q.len() && str_eq(q[i].0.as_str(), k.as_str()) {
        q.set(i, (k, v));
        proof {
            assert(pairs_view(q@) =~= pv.subrange(0, i as int) + insert_sorted(tail, k@, v@));
        }
    } else {
        q.insert(i, (k, v));
        proof {
            assert(pairs_view(q@) =~= pv.subrange(0, i as int) + insert_sorted(tail, k@, v@));
        }
    }
}

pub proof fn lemma_normalize(q: Qualifiers)
    ensures
        keys_sorted(normalize(q)),
        qualifier_map(normalize(q)) == qualifier_map(q),
    decreases q.len(),
{
    if q.len() > 0 {
        lemma_normalize(q.drop_last());
        lemma_insert_sorted(normalize(q.drop_last()), q.last().0, q.last().1);
    }
}

impl Purl {
    /// Whether the qualifiers are ordered by key, each key once.
    pub open spec fn wf(&self) -> bool {
        keys_sorted(self@.qualifiers)
    }

    /// A package URL of the given parts, its qualifiers put in order of key;
    /// of two pairs with one key the later stays.
    pub fn from_parts(
        ty: String,
        namespace: Option<String>,
        name: String,
        version: Option<String>,
        qualifiers: Vec<(String, String)>,
    ) -> (r: Purl)
        ensures
            r.wf(),
            r@ == (PurlView {
                ty: ty@,
                namespace: opt_view(namespace),
                name: name@,
                version: opt_view(version),
                qualifiers: normalize(pairs_view(qualifiers@)),
            }),
    {
        let mut sorted: Vec<(String, String)> = Vec::new();
        let mut i: usize = 0;
        while i < qualifiers.len()
            invariant
                i <= qualifiers.len(),
                pairs_view(sorted@) == normalize(pairs_view(qualifiers@.subrange(0, i as int))),
                keys_sorted(pairs_view(sorted@)),
            decreases qualifiers.len() - i,
        {
            let k = qualifiers[i].0.clone();
            let v = qualifiers[i].1.clone();
            insert_qualifier(&mut sorted, k, v);
            proof {
                let pre = pairs_view(qualifiers@.subrange(0, i + 1));
                assert(pre.drop_last() =~= pairs_view(qualifiers@.subrange(0, i as int)));
            }
            i = i + 1;
        }
        proof {
            assert(qualifiers@.subrange(0, i as int) =~= qualifiers@);
        }
        Purl { ty, namespace, name, version, qualifiers: sorted }
    }

    pub fn package_uuid(&self) -> (r: u128)
        ensures
            r == spec_package_uuid(self@),
    {
        let mut result = new_v5(NAMESPACE, self.ty.as_str().as_bytes());
        if let Some(namespace) = &self.namespace {
            result = new_v5(result, namespace.as_str().as_bytes());
        }
        new_v5(result, self.name.as_str().as_bytes())
    }

    fn then_version_uuid(&self, package: u128) -> (r: u128)
        ensures
            r == spec_then_version_uuid(self@, package),
    {
        match &self.version {
            Some(v) => new_v5(package, v.as_str().as_bytes()),
            None => {
                let empty: [u8; 0] = [];
                let r = new_v5(package, empty.as_slice());
                proof {
                    assert(empty@ =~= Seq::<u8>::empty());
                }
                r
            },
        }
    }

    pub fn version_uuid(&self) -> (r: u128)
        ensures
            r == spec_version_uuid(self@),
    {
        let package = self.package_uuid();
        self.then_version_uuid(package)
    }

    fn then_qualifier_uuid(&self, version: u128) -> (r: u128)
        ensures
            r == fold_qualifiers(version, self@.qualifiers),
    {
        let ghost q = self@.qualifiers;
        let mut result = version;
        let mut i: usize = 0;
        proof {
            assert(q.subrange(0, q.len() as int) =~= q);
        }
        while i < self.qualifiers.len()
            invariant
                q == self@.qualifiers,
                i <= q.len(),
                q.len() == self.qualifiers@.len(),
                fold_qualifiers(version, q) == fold_qualifiers(result, q.subrange(i as int, q.len() as int)),
            decreases q.len() - i,
        {
            let ghost before = result;
            result = new_v5(result, self.qualifiers[i].0.as_str().as_bytes());
            result = new_v5(result, self.qualifiers[i].1.as_str().as_bytes());
            proof {
                let s = q.subrange(i as int, q.len() as int);
                assert(s[0] == q[i as int]);
                assert(s.drop_first() =~= q.subrange(i + 1, q.len() as int));
            }
            i = i + 1;
        }
        proof {
            assert(q.subrange(i as int, q.len() as int) =~= Seq::<(Seq<char>, Seq<char>)>::empty());
        }
        result
    }

    pub fn qualifier_uuid(&self) -> (r: u128)
        ensures
            r == spec_qualifier_uuid(self@),
    {
        let version = self.version_uuid();
        self.then_qualifier_uuid(version)
    }

    /// The package, version and qualified-package identifiers.
    pub fn uuids(&self) -> (r: (u128, u128, u128))
        ensures
            r == (spec_package_uuid(self@), spec_version_uuid(self@), spec_qualifier_uuid(self@)),
    {
        let package = self.package_uuid();
        let version = self.then_version_uuid(package);
        let qualified = self.then_qualifier_uuid(version);
        (package, version, qualified)
    }
}

/// The qualifier part of a rendered package URL: `k=v` pairs joined by `&`.
pub open spec fn render_qualifiers(q: Qualifiers) -> Seq<char>
    decreases q.len(),
{
    if q.len() == 0 {
        seq![]
    } else {
        let sep: Seq<char> = if q.len() == 1 { seq![] } else { seq!['&'] };
        render_qualifiers(q.drop_last()) + sep + q.last().0 + seq!['='] + q.last().1
    }
}

/// `pkg://<type>[/<namespace>]/<name>[@<version>][?<qualifiers>]`.
pub open spec fn render(p: PurlView) -> Seq<char> {
    let ns: Seq<char> = match p.namespace {
        Some(n) => seq!['/'] + n,
        None => seq![],
    };
    let version: Seq<char> = match p.version {
        Some(v) => seq!['@'] + v,
        None => seq![],
    };
    let qualifiers: Seq<char> = if p.qualifiers.len() == 0 {
        seq![]
    } else {
        seq!['?'] + render_qualifiers(p.qualifiers)
    };
    seq!['p', 'k', 'g', ':', '/', '/'] + p.ty + ns + seq!['/'] + p.name + version + qualifiers
}

/// What `packageurl` makes of a string: type, namespace, name, version and
/// qualifiers, or nothing where it refuses the string.
pub uninterp spec fn package_url_parts(s: Seq<char>) -> Option<
    (Seq<char>, Option<Seq<char>>, Seq<char>, Option<Seq<char>>, Map<Seq<char>, Seq<char>>),
>;

#[verifier::external_type_specification]
#[verifier::external_body]
pub struct ExPackageUrlError(packageurl::Error);

/// Relies on `packageurl::PackageUrl::from_str`, which parses and
/// canonicalizes a package URL; its qualifiers come out of a hash map, in no
/// fixed order, each key once.
#[verifier::external_body]
fn parse_package_url(s: &str) -> (r: Result<
    (String, Option<String>, String, Option<String>, Vec<(String, String)>),
    packageurl::Error,
>)
    ensures
        match r {
            Ok(p) => package_url_parts(s@) == Some(
                (p.0@, opt_view(p.1), p.2@, opt_view(p.3), qualifier_map(pairs_view(p.4@))),
            ),
            Err(_) => package_url_parts(s@) is None,
        },
{
    let p = <packageurl::PackageUrl as std::str::FromStr>::from_str(s)?;
    Ok((
        p.ty().to_string(),
        p.namespace().map(|n| n.to_string()),
        p.name().to_string(),
        p.version().map(|v| v.to_string()),
        p.qualifiers().iter().map(|(k, v)| (k.to_string(), v.to_string())).collect(),
    ))
}

/// Why a string is not a package URL.
#[derive(Debug)]
pub enum PurlErr {
    MissingVersion(String),
    Package(packageurl::Error),
}

impl Purl {
    /// Parses a package URL; the qualifiers come out ordered by key.
    pub fn from_str(s: &str) -> (r: Result<Purl, PurlErr>)
        ensures
            match package_url_parts(s@) {
                Some(parts) => match r {
                    Ok(p) => p.wf() && p@ == purl_of_parts(parts),
                    Err(_) => false,
                },
                None => match r {
                    Ok(_) => false,
                    Err(e) => e is Package,
                },
            },
    {
        match parse_package_url(s) {
            Ok((ty, namespace, name, version, qualifiers)) => {
                let p = Purl::from_parts(ty, namespace, name, version, qualifiers);
                proof {
                    lemma_normalize(pairs_view(qualifiers@));
                    lemma_parsed_purl(p, package_url_parts(s@)->Some_0);
                }
                Ok(p)
            },
            Err(e) => Err(PurlErr::Package(e)),
        }
    }

    /// The canonical text form, qualifiers in the order held.
    pub fn to_string(&self) -> (r: String)
        ensures
            r@ == render(self@),
    {
        let mut out = String::new();
        out.append("pkg://");
        out.append(self.ty.as_str());
        if let Some(ns) = &self.namespace {
            out.append("/");
            out.append(ns.as_str());
        }
        out.append("/");
        out.append(self.name.as_str());
        if let Some(v) = &self.version {
            out.append("@");
            out.append(v.as_str());
        }
        let ghost head = out@;
        let ghost q = self@.qualifiers;
        if self.qualifiers.len() > 0 {
            out.append("?");
            let ghost start = out@;
            let mut i: usize = 0;
            while i < self.qualifiers.len()
                invariant
                    q == self@.qualifiers,
                    q.len() == self.qualifiers@.len(),
                    i <= q.len(),
                    out@ == start + render_qualifiers(q.subrange(0, i as int)),
                decreases q.len() - i,
            {
                if i > 0 {
                    out.append("&");
                }
                out.append(self.qualifiers[i].0.as_str());
                out.append("=");
                out.append(self.qualifiers[i].1.as_str());
                proof {
                    reveal_strlit("&");
                    reveal_strlit("=");
                    let pre = q.subrange(0, i + 1);
                    assert(pre.drop_last() =~= q.subrange(0, i as int));
                    assert(pre.last() == q[i as int]);
                }
                i = i + 1;
            }
            proof {
                assert(q.subrange(0, i as int) =~= q);
            }
        }
        proof {
            reveal_strlit("pkg://");
            reveal_strlit("/");
            reveal_strlit("@");
            reveal_strlit("?");
            assert(out@ =~= render(self@));
        }
        out
    }
}

proof fn lemma_drop_first_map(x: Qualifiers)
    requires
        keys_sorted(x),
        x.len() > 0,
    ensures
        keys_sorted(x.drop_first()),
        qualifier_map(x.drop_first()) == qualifier_map(x).remove(x[0].0),
{
    let t = x.drop_first();
    assert forall|i: int, j: int| 0 <= i < j < t.len() implies chars_lt(#[trigger] t[i].0, #[trigger] t[j].0) by {
        assert(t[i] == x[i + 1] && t[j] == x[j + 1]);
    }
    lemma_sorted_map(x);
    lemma_sorted_map(t);
    assert forall|key| #[trigger] qualifier_map(t).contains_key(key) <==> qualifier_map(x).remove(x[0].0).contains_key(key) by {
        if qualifier_map(t).contains_key(key) {
            let j = choose|j: int| 0 <= j < t.len() && t[j].0 == key;
            assert(x[j + 1].0 == key);
            assert(chars_lt(x[0].0, x[j + 1].0));
            lemma_chars_lt_irreflexive(key);
        }
        if qualifier_map(x).remove(x[0].0).contains_key(key) {
            let j = choose|j: int| 0 <= j < x.len() && x[j].0 == key;
            assert(t[j - 1].0 == key);
        }
    }
    assert forall|key| #[trigger] qualifier_map(t).contains_key(key) implies qualifier_map(t)[key] == qualifier_map(x).remove(x[0].0)[key] by {
        let j = choose|j: int| 0 <= j < t.len() && t[j].0 == key;
        assert(t[j] == x[j + 1]);
        assert(qualifier_map(t).contains_key(t[j].0));
        assert(qualifier_map(x).contains_key(x[j + 1].0));
    }
    assert(qualifier_map(t) =~= qualifier_map(x).remove(x[0].0));
}

/// Ordered qualifiers are determined by the map they make.
pub proof fn lemma_sorted_unique(x: Qualifiers, y: Qualifiers)
    requires
        keys_sorted(x),
        keys_sorted(y),
        qualifier_map(x) == qualifier_map(y),
    ensures
        x == y,
    decreases x.len(),
{
    lemma_sorted_map(x);
    lemma_sorted_map(y);
    if x.len() == 0 {
        if y.len() > 0 {
            assert(qualifier_map(y).contains_key(y[0].0));
        }
        assert(x =~= y);
    } else {
        assert(qualifier_map(x).contains_key(x[0].0));
        if y.len() == 0 {
            assert(false);
        }
        assert(qualifier_map(y).contains_key(y[0].0));
        let j = choose|j: int| 0 <= j < y.len() && y[j].0 == x[0].0;
        let m = choose|m: int| 0 <= m < x.len() && x[m].0 == y[0].0;
        if j > 0 {
            assert(chars_lt(y[0].0, y[j].0));
            if m == 0 {
                lemma_chars_lt_irreflexive(x[0].0);
            } else {
                assert(chars_lt(x[0].0, x[m].0));
                lemma_chars_lt_asymmetric(x[0].0, x[m].0);
            }
        }
        assert(x[0] == y[0]);
        lemma_drop_first_map(x);
        lemma_drop_first_map(y);
        lemma_sorted_unique(x.drop_first(), y.drop_first());
        assert(x =~= seq![x[0]] + x.drop_first());
        assert(y =~= seq![y[0]] + y.drop_first());
    }
}

/// The package URL that parts of a parse stand for: its qualifiers are the
/// ordered pairs of the map.
pub open spec fn purl_of_parts(
    parts: (Seq<char>, Option<Seq<char>>, Seq<char>, Option<Seq<char>>, Map<Seq<char>, Seq<char>>),
) -> PurlView {
    PurlView {
        ty: parts.0,
        namespace: parts.1,
        name: parts.2,
        version: parts.3,
        qualifiers: choose|q: Qualifiers| keys_sorted(q) && qualifier_map(q) == parts.4,
    }
}

/// A parsed package URL is the one that its parts stand for.
pub proof fn lemma_parsed_purl(p: Purl, parts: (Seq<char>, Option<Seq<char>>, Seq<char>, Option<Seq<char>>, Map<Seq<char>, Seq<char>>))
    requires
        p.wf(),
        p@.ty == parts.0,
        p@.namespace == parts.1,
        p@.name == parts.2,
        p@.version == parts.3,
        qualifier_map(p@.qualifiers) == parts.4,
    ensures
        p@ == purl_of_parts(parts),
{
    let q = choose|q: Qualifiers| keys_sorted(q) && qualifier_map(q) == parts.4;
    lemma_sorted_unique(p@.qualifiers, q);
}

/// The identifiers of a package URL depend on its type, namespace, name,
/// version and ordered qualifiers alone: equal parts give equal identifiers.
pub proof fn identifiers_deterministic(a: Purl, b: Purl)
    requires
        a@ == b@,
    ensures
        spec_package_uuid(a@) == spec_package_uuid(b@),
        spec_version_uuid(a@) == spec_version_uuid(b@),
        spec_qualifier_uuid(a@) == spec_qualifier_uuid(b@),
{
}

/// The order in which qualifiers are given does not change the qualified
/// identifier: lists that make the same map (a permutation of pairs with
/// distinct keys does) give the same ordered qualifiers, hence the same
/// identifier.
pub proof fn qualifier_order_irrelevant(
    ty: Seq<char>,
    namespace: Option<Seq<char>>,
    name: Seq<char>,
    version: Option<Seq<char>>,
    a: Qualifiers,
    b: Qualifiers,
)
    requires
        qualifier_map(a) == qualifier_map(b),
    ensures
        normalize(a) == normalize(b),
        spec_qualifier_uuid(PurlView { ty, namespace, name, version, qualifiers: normalize(a) })
            == spec_qualifier_uuid(PurlView { ty, namespace, name, version, qualifiers: normalize(b) }),
{
    lemma_normalize(a);
    lemma_normalize(b);
    lemma_sorted_unique(normalize(a), normalize(b));
}

/// Distinct keys: a permutation of such a list makes the same map.
pub open spec fn distinct_keys(q: Qualifiers) -> bool {
    forall|i: int, j: int| 0 <= i < j < q.len() ==> (#[trigger] q[i]).0 != (#[trigger] q[j]).0
}

proof fn lemma_distinct_map(q: Qualifiers)
    requires
        distinct_keys(q),
    ensures
        forall|k: Seq<char>, v: Seq<char>| (qualifier_map(q).contains_key(k) && qualifier_map(q)[k] == v) <==> #[trigger] q.contains((k, v)),
    decreases q.len(),
{
    if q.len() > 0 {
        let p = q.drop_last();
        assert(distinct_keys(p)) by {
            assert forall|i: int, j: int| 0 <= i < j < p.len() implies (#[trigger] p[i]).0 != (#[trigger] p[j]).0 by {
                assert(p[i] == q[i] && p[j] == q[j]);
            }
        }
        lemma_distinct_map(p);
        assert(qualifier_map(q) == qualifier_map(p).insert(q.last().0, q.last().1));
        assert forall|k: Seq<char>, v: Seq<char>| (qualifier_map(q).contains_key(k) && qualifier_map(q)[k] == v) <==> #[trigger] q.contains((k, v)) by {
            if q.contains((k, v)) {
                let i = choose|i: int| 0 <= i < q.len() && q[i] == (k, v);
                if i < q.len() - 1 {
                    assert(p[i] == (k, v));
                    assert(p.contains((k, v)));
                }
            }
            if qualifier_map(q).contains_key(k) && qualifier_map(q)[k] == v && k != q.last().0 {
                assert(p.contains((k, v)));
                let i = choose|i: int| 0 <= i < p.len() && p[i] == (k, v);
                assert(q[i] == (k, v));
            }
            if k == q.last().0 && q.contains((k, v)) {
                let i = choose|i: int| 0 <= i < q.len() && q[i] == (k, v);
                if i < q.len() - 1 {
                    assert(q[i].0 == q[q.len() - 1].0);
                }
            }
        }
    }
}

/// Two lists of the same pairs, each key once, in any order, make the same map.
pub proof fn lemma_permuted_same_map(a: Qualifiers, b: Qualifiers)
    requires
        distinct_keys(a),
        distinct_keys(b),
        forall|x: (Seq<char>, Seq<char>)| a.contains(x) <==> b.contains(x),
    ensures
        qualifier_map(a) == qualifier_map(b),
{
    lemma_distinct_map(a);
    lemma_distinct_map(b);
    assert forall|k: Seq<char>| #[trigger] qualifier_map(a).contains_key(k) <==> qualifier_map(b).contains_key(k) by {
        if qualifier_map(a).contains_key(k) {
            assert(a.contains((k, qualifier_map(a)[k])));
        }
        if qualifier_map(b).contains_key(k) {
            assert(b.contains((k, qualifier_map(b)[k])));
        }
    }
    assert forall|k: Seq<char>| #[trigger] qualifier_map(a).contains_key(k) implies qualifier_map(a)[k] == qualifier_map(b)[k] by {
        assert(a.contains((k, qualifier_map(a)[k])));
        assert(b.contains((k, qualifier_map(a)[k])));
    }
    assert(qualifier_map(a) =~= qualifier_map(b));
}

/// Putting qualifiers in order twice changes nothing: a package URL built
/// from the parts of one is that package URL.
pub proof fn normalize_idempotent(q: Qualifiers)
    ensures
        normalize(normalize(q)) == normalize(q),
{
    lemma_normalize(q);
    lemma_normalize(normalize(q));
    lemma_sorted_unique(normalize(normalize(q)), normalize(q));
}

/// Permuting qualifiers, each key once, does not change the qualified
/// identifier.
pub proof fn permuted_qualifiers_same_identifier(
    ty: Seq<char>,
    namespace: Option<Seq<char>>,
    name: Seq<char>,
    version: Option<Seq<char>>,
    a: Qualifiers,
    b: Qualifiers,
)
    requires
        distinct_keys(a),
        distinct_keys(b),
        forall|x: (Seq<char>, Seq<char>)| a.contains(x) <==> b.contains(x),
    ensures
        normalize(a) == normalize(b),
        spec_qualifier_uuid(PurlView { ty, namespace, name, version, qualifiers: normalize(a) })
            == spec_qualifier_uuid(PurlView { ty, namespace, name, version, qualifiers: normalize(b) }),
{
    lemma_permuted_same_map(a, b);
    qualifier_order_irrelevant(ty, namespace, name, version, a, b);
}

} // verus!
