//! Gathers the package URLs of one ingest and turns them into the rows of
//! the package, version and qualified-package tables.

use vstd::prelude::*;
use crate::purl::{opt_view, pairs_view, spec_package_uuid, spec_qualifier_uuid, spec_version_uuid, Purl, PurlView, Qualifiers};

verus! {

pub struct PackageRow {
    pub id: u128,
    pub ty: String,
    pub namespace: Option<String>,
    pub name: String,
}

pub struct VersionRow {
    pub id: u128,
    pub package: u128,
    pub version: Option<String>,
}

pub struct QualifiedRow {
    pub id: u128,
    pub version: u128,
    pub qualifiers: Vec<(String, String)>,
}

/// Package URLs, each qualified package once, in the order first added.
pub struct PurlCreator {
    pub purls: Vec<Purl>,
}

pub open spec fn has_qualified(ps: Seq<Purl>, q: u128) -> bool {
    exists|i: int| 0 <= i < ps.len() && spec_qualifier_uuid((#[trigger] ps[i])@) == q
}

/// The package URLs that first introduce each package identifier.
pub open spec fn first_packages(ps: Seq<Purl>) -> Seq<PurlView>
    decreases ps.len(),
{
    if ps.len() == 0 {
        seq![]
    } else {
        let pre = first_packages(ps.drop_last());
        if exists|j: int| 0 <= j < pre.len() && spec_package_uuid(#[trigger] pre[j]) == spec_package_uuid(ps.last()@) {
            pre
        } else {
            pre.push(ps.last()@)
        }
    }
}

/// The package URLs that first introduce each version identifier.
pub open spec fn first_versions(ps: Seq<Purl>) -> Seq<PurlView>
    decreases ps.len(),
{
    if ps.len() == 0 {
        seq![]
    } else {
        let pre = first_versions(ps.drop_last());
        if exists|j: int| 0 <= j < pre.len() && spec_version_uuid(#[trigger] pre[j]) == spec_version_uuid(ps.last()@) {
            pre
        } else {
            pre.push(ps.last()@)
        }
    }
}

pub open spec fn package_row_of(r: PackageRow, p: PurlView) -> bool {
    &&& r.id == spec_package_uuid(p)
    &&& r.ty@ == p.ty
    &&& opt_view(r.namespace) == p.namespace
    &&& r.name@ == p.name
}

pub open spec fn version_row_of(r: VersionRow, p: PurlView) -> bool {
    &&& r.id == spec_version_uuid(p)
    &&& r.package == spec_package_uuid(p)
    &&& opt_view(r.version) == p.version
}

fn clone_opt(o: &Option<String>) -> (r: Option<String>)
    ensures
        r == *o,
{
    match o {
        Some(s) => Some(s.clone()),
        None => None,
    }
}

fn clone_pairs(v: &Vec<(String, String)>) -> (r: Vec<(String, String)>)
    ensures
        pairs_view(r@) == pairs_view(v@),
{
    let mut out: Vec<(String, String)> = Vec::new();
    let mut i: usize = 0;
    while i < v.len()
        invariant
            i <= v@.len(),
            pairs_view(out@) == pairs_view(v@.subrange(0, i as int)),
        decreases v@.len() - i,
    {
        let ghost before = out@;
        let a = v[i].0.clone();
        let b = v[i].1.clone();
        out.push((a, b));
        proof {
            assert(out@ == before.push((a, b)));
            assert(pairs_view(out@) =~= pairs_view(before).push((a@, b@)));
            assert(pairs_view(out@) =~= pairs_view(v@.subrange(0, i + 1)));
        }
        i = i + 1;
    }
    proof {
        assert(v@.subrange(0, i as int) =~= v@);
    }
    out
}

impl PurlCreator {
    /// Each qualified package once; every package URL's qualifiers in order.
    pub open spec fn wf(&self) -> bool {
        &&& forall|i: int, j: int| 0 <= i < j < self.purls@.len() ==>
            spec_qualifier_uuid((#[trigger] self.purls@[i])@) != spec_qualifier_uuid((#[trigger] self.purls@[j])@)
        &&& forall|i: int| 0 <= i < self.purls@.len() ==> (#[trigger] self.purls@[i]).wf()
    }

    pub fn new() -> (r: PurlCreator)
        ensures
            r.wf(),
            r.purls@.len() == 0,
    {
        PurlCreator { purls: Vec::new() }
    }

    pub fn len(&self) -> (r: usize)
        ensures
            r == self.purls@.len(),
    {
        self.purls.len()
    }

    /// Adds a package URL unless its qualified package is held already.
    pub fn add(&mut self, purl: Purl)
        requires
            old(self).wf(),
            purl.wf(),
        ensures
            final(self).wf(),
            final(self).purls@ == if has_qualified(old(self).purls@, spec_qualifier_uuid(purl@)) {
                old(self).purls@
            } else {
                old(self).purls@.push(purl)
            },
    {
        let q = purl.qualifier_uuid();
        let mut i: usize = 0;
        while i < self.purls.len()
            invariant
                i <= self.purls@.len(),
                *self == *old(self),
                old(self).wf(),
                q == spec_qualifier_uuid(purl@),
                forall|j: int| 0 <= j < i ==> spec_qualifier_uuid((#[trigger] self.purls@[j])@) != q,
            decreases self.purls@.len() - i,
        {
            if self.purls[i].qualifier_uuid() == q {
                proof {
                    assert(has_qualified(self.purls@, q));
                }
                return;
            }
            i = i + 1;
        }
        self.purls.push(purl);
    }

    /// The rows to insert, in the order they go in: one package row per
    /// package identifier, one version row per version identifier, each from
    /// the first package URL that has it, and one qualified row per package URL.
    pub fn rows(&self) -> (r: (Vec<PackageRow>, Vec<VersionRow>, Vec<QualifiedRow>))
        ensures
            r.0@.len() == first_packages(self.purls@).len(),
            forall|i: int| 0 <= i < r.0@.len() ==> package_row_of(#[trigger] r.0@[i], first_packages(self.purls@)[i]),
            r.1@.len() == first_versions(self.purls@).len(),
            forall|i: int| 0 <= i < r.1@.len() ==> version_row_of(#[trigger] r.1@[i], first_versions(self.purls@)[i]),
            r.2@.len() == self.purls@.len(),
            forall|i: int| 0 <= i < r.2@.len() ==> {
                &&& (#[trigger] r.2@[i]).id == spec_qualifier_uuid(self.purls@[i]@)
                &&& r.2@[i].version == spec_version_uuid(self.purls@[i]@)
                &&& pairs_view(r.2@[i].qualifiers@) == self.purls@[i]@.qualifiers
            },
    {
        let mut packages: Vec<PackageRow> = Vec::new();
        let mut versions: Vec<VersionRow> = Vec::new();
        let mut qualified: Vec<QualifiedRow> = Vec::new();
        let mut i: usize = 0;
        while i < self.purls.len()
            invariant
                i <= self.purls@.len(),
                packages@.len() == first_packages(self.purls@.subrange(0, i as int)).len(),
                forall|k: int| 0 <= k < packages@.len() ==>
                    package_row_of(#[trigger] packages@[k], first_packages(self.purls@.subrange(0, i as int))[k]),
                versions@.len() == first_versions(self.purls@.subrange(0, i as int)).len(),
                forall|k: int| 0 <= k < versions@.len() ==>
                    version_row_of(#[trigger] versions@[k], first_versions(self.purls@.subrange(0, i as int))[k]),
                qualified@.len() == i,
                forall|k: int| 0 <= k < i ==> {
                    &&& (#[trigger] qualified@[k]).id == spec_qualifier_uuid(self.purls@[k]@)
                    &&& qualified@[k].version == spec_version_uuid(self.purls@[k]@)
                    &&& pairs_view(qualified@[k].qualifiers@) == self.purls@[k]@.qualifiers
                },
            decreases self.purls@.len() - i,
        {
            let p = &self.purls[i];
            let (package, version, q) = p.uuids();
            let ghost pre = self.purls@.subrange(0, i as int);
            let ghost next = self.purls@.subrange(0, i + 1);
            proof {
                assert(next.drop_last() =~= pre);
                assert(next.last() == self.purls@[i as int]);
            }
            let ghost fp = first_packages(pre);
            let mut k: usize = 0;
            let mut seen = false;
            while k < packages.len()
                invariant
                    k <= packages@.len(),
                    packages@.len() == fp.len(),
                    forall|m: int| 0 <= m < packages@.len() ==> package_row_of(#[trigger] packages@[m], fp[m]),
                    !seen ==> forall|m: int| 0 <= m < k ==> spec_package_uuid(#[trigger] fp[m]) != package,
                    seen ==> exists|m: int| 0 <= m < fp.len() && spec_package_uuid(#[trigger] fp[m]) == package,
                decreases packages@.len() - k,
            {
                if packages[k].id == package {
                    seen = true;
                    proof {
                        assert(package_row_of(packages@[k as int], fp[k as int]));
                    }
                }
                k = k + 1;
            }
            if !seen {
                packages.push(PackageRow {
                    id: package,
                    ty: p.ty.clone(),
                    namespace: clone_opt(&p.namespace),
                    name: p.name.clone(),
                });
                proof {
                    assert(first_packages(next) == fp.push(p@));
                }
            } else {
                proof {
                    assert(first_packages(next) == fp);
                }
            }
            let ghost fv = first_versions(pre);
            let mut k: usize = 0;
            let mut seen = false;
            while k < versions.len()
                invariant
                    k <= versions@.len(),
                    versions@.len() == fv.len(),
                    forall|m: int| 0 <= m < versions@.len() ==> version_row_of(#[trigger] versions@[m], fv[m]),
                    !seen ==> forall|m: int| 0 <= m < k ==> spec_version_uuid(#[trigger] fv[m]) != version,
                    seen ==> exists|m: int| 0 <= m < fv.len() && spec_version_uuid(#[trigger] fv[m]) == version,
                decreases versions@.len() - k,
            {
                if versions[k].id == version {
                    seen = true;
                    proof {
                        assert(version_row_of(versions@[k as int], fv[k as int]));
                    }
                }
                k = k + 1;
            }
            if !seen {
                versions.push(VersionRow { id: version, package, version: clone_opt(&p.version) });
                proof {
                    assert(first_versions(next) == fv.push(p@));
                }
            } else {
                proof {
                    assert(first_versions(next) == fv);
                }
            }
            qualified.push(QualifiedRow { id: q, version, qualifiers: clone_pairs(&p.qualifiers) });
            i = i + 1;
        }
        proof {
            assert(self.purls@.subrange(0, i as int) =~= self.purls@);
        }
        (packages, versions, qualified)
    }
}

pub open spec fn purl_views(ps: Seq<Purl>) -> Seq<PurlView> {
    ps.map_values(|p: Purl| p@)
}

/// What adding package URLs in order leaves: each qualified package once,
/// the first to bring it kept.
pub open spec fn views_added(acc: Seq<PurlView>, vs: Seq<PurlView>) -> Seq<PurlView>
    decreases vs.len(),
{
    if vs.len() == 0 {
        acc
    } else {
        let pre = views_added(acc, vs.drop_last());
        if exists|j: int| 0 <= j < pre.len() && spec_qualifier_uuid(#[trigger] pre[j]) == spec_qualifier_uuid(vs.last()) {
            pre
        } else {
            pre.push(vs.last())
        }
    }
}

pub proof fn lemma_views_added_concat(acc: Seq<PurlView>, s: Seq<PurlView>, t: Seq<PurlView>)
    ensures
        views_added(views_added(acc, s), t) == views_added(acc, s + t),
    decreases t.len(),
{
    if t.len() > 0 {
        lemma_views_added_concat(acc, s, t.drop_last());
        assert((s + t).drop_last() =~= s + t.drop_last());
        assert((s + t).last() == t.last());
    }
}

impl PurlCreator {
    /// Adds a package URL, as `add` does, stated over what the package URLs stand for.
    pub proof fn lemma_add_views(old_purls: Seq<Purl>, new_purls: Seq<Purl>, purl: Purl)
        requires
            new_purls == if has_qualified(old_purls, spec_qualifier_uuid(purl@)) {
                old_purls
            } else {
                old_purls.push(purl)
            },
        ensures
            purl_views(new_purls) == views_added(purl_views(old_purls), seq![purl@]),
    {
        let ov = purl_views(old_purls);
        let one = seq![purl@];
        assert(one.drop_last() =~= Seq::<PurlView>::empty());
        assert(views_added(ov, one.drop_last()) == ov);
        if has_qualified(old_purls, spec_qualifier_uuid(purl@)) {
            let i = choose|i: int| 0 <= i < old_purls.len() && spec_qualifier_uuid((#[trigger] old_purls[i])@) == spec_qualifier_uuid(purl@);
            assert(spec_qualifier_uuid(ov[i]) == spec_qualifier_uuid(purl@));
        } else {
            assert forall|j: int| 0 <= j < ov.len() implies spec_qualifier_uuid(#[trigger] ov[j]) != spec_qualifier_uuid(purl@) by {
                assert(ov[j] == old_purls[j]@);
            }
            assert(purl_views(new_purls) =~= ov.push(purl@));
        }
    }
}

} // verus!
