//! Mapping of SPDX documents onto the graph's relationship vocabulary.

use vstd::prelude::*;
use crate::purl::{package_url_parts, purl_of_parts, spec_qualifier_uuid, Purl, PurlView};
use crate::cpe::{cpe_canonical, spec_cpe_uuid, Cpe};
use crate::creator::{lemma_views_added_concat, purl_views, views_added, PurlCreator};
use crate::report::Report;
use crate::text::str_eq;

verus! {

/// The kinds of edge that the graph holds; each points from a dependent or
/// child to its parent.
#[derive(Clone, Copy, Debug, PartialEq, Eq, Structural)]
pub enum Relationship {
    DescribedBy,
    ContainedBy,
    DependencyOf,
    DevDependencyOf,
    OptionalDependencyOf,
    ProvidedDependencyOf,
    TestDependencyOf,
    RuntimeDependencyOf,
    ExampleOf,
    GeneratedFrom,
    AncestorOf,
    VariantOf,
    BuildToolOf,
    DevToolOf,
}

/// The SPDX relationship kinds that the graph knows; `Other` stands for any
/// further kind, which is dropped.
#[derive(Clone, Copy, Debug, PartialEq, Eq, Structural)]
pub enum RelationshipType {
    Contains,
    ContainedBy,
    Describes,
    DescribedBy,
    DependsOn,
    DependencyOf,
    DevDependencyOf,
    OptionalDependencyOf,
    ProvidedDependencyOf,
    TestDependencyOf,
    RuntimeDependencyOf,
    ExampleOf,
    Generates,
    GeneratedFrom,
    AncestorOf,
    DescendantOf,
    VariantOf,
    BuildToolOf,
    DevToolOf,
    Other,
}

/// The graph's kind for an SPDX kind, and whether the two ends swap.
pub open spec fn kind_mapping(rel: RelationshipType) -> Option<(bool, Relationship)> {
    match rel {
        RelationshipType::Contains => Some((true, Relationship::ContainedBy)),
        RelationshipType::ContainedBy => Some((false, Relationship::ContainedBy)),
        RelationshipType::Describes => Some((true, Relationship::DescribedBy)),
        RelationshipType::DescribedBy => Some((false, Relationship::DescribedBy)),
        RelationshipType::DependsOn => Some((true, Relationship::DependencyOf)),
        RelationshipType::DependencyOf => Some((false, Relationship::DependencyOf)),
        RelationshipType::DevDependencyOf => Some((false, Relationship::DevDependencyOf)),
        RelationshipType::OptionalDependencyOf => Some((false, Relationship::OptionalDependencyOf)),
        RelationshipType::ProvidedDependencyOf => Some((false, Relationship::ProvidedDependencyOf)),
        RelationshipType::TestDependencyOf => Some((false, Relationship::TestDependencyOf)),
        RelationshipType::RuntimeDependencyOf => Some((false, Relationship::RuntimeDependencyOf)),
        RelationshipType::ExampleOf => Some((false, Relationship::ExampleOf)),
        RelationshipType::Generates => Some((true, Relationship::GeneratedFrom)),
        RelationshipType::GeneratedFrom => Some((false, Relationship::GeneratedFrom)),
        RelationshipType::AncestorOf => Some((false, Relationship::AncestorOf)),
        RelationshipType::DescendantOf => Some((true, Relationship::AncestorOf)),
        RelationshipType::VariantOf => Some((false, Relationship::VariantOf)),
        RelationshipType::BuildToolOf => Some((false, Relationship::BuildToolOf)),
        RelationshipType::DevToolOf => Some((false, Relationship::DevToolOf)),
        RelationshipType::Other => None,
    }
}

pub type Edge = (Seq<char>, Relationship, Seq<char>);

/// The graph edge for an SPDX relationship `left rel right`, if the kind is known.
pub open spec fn spdx_edge(left: Seq<char>, rel: RelationshipType, right: Seq<char>) -> Option<Edge> {
    match kind_mapping(rel) {
        Some((swap, kind)) => if swap {
            Some((right, kind, left))
        } else {
            Some((left, kind, right))
        },
        None => None,
    }
}

/// An edge of the graph: `left` relates by the kind to `right`.
pub struct SpdxRelationship(pub String, pub Relationship, pub String);

impl SpdxRelationship {
    pub open spec fn edge(&self) -> Edge {
        (self.0@, self.1, self.2@)
    }

    /// Rewrites an SPDX relationship so that it points from the dependent or
    /// child to its parent; fails for kinds that the graph does not hold.
    pub fn try_from(left: &str, rel: RelationshipType, right: &str) -> (r: Result<SpdxRelationship, ()>)
        ensures
            match spdx_edge(left@, rel, right@) {
                Some(e) => r is Ok && r->Ok_0.edge() == e,
                None => r is Err,
            },
    {
        let (swap, kind) = match rel {
            RelationshipType::Contains => (true, Relationship::ContainedBy),
            RelationshipType::ContainedBy => (false, Relationship::ContainedBy),
            RelationshipType::Describes => (true, Relationship::DescribedBy),
            RelationshipType::DescribedBy => (false, Relationship::DescribedBy),
            RelationshipType::DependsOn => (true, Relationship::DependencyOf),
            RelationshipType::DependencyOf => (false, Relationship::DependencyOf),
            RelationshipType::DevDependencyOf => (false, Relationship::DevDependencyOf),
            RelationshipType::OptionalDependencyOf => (false, Relationship::OptionalDependencyOf),
            RelationshipType::ProvidedDependencyOf => (false, Relationship::ProvidedDependencyOf),
            RelationshipType::TestDependencyOf => (false, Relationship::TestDependencyOf),
            RelationshipType::RuntimeDependencyOf => (false, Relationship::RuntimeDependencyOf),
            RelationshipType::ExampleOf => (false, Relationship::ExampleOf),
            RelationshipType::Generates => (true, Relationship::GeneratedFrom),
            RelationshipType::GeneratedFrom => (false, Relationship::GeneratedFrom),
            RelationshipType::AncestorOf => (false, Relationship::AncestorOf),
            RelationshipType::DescendantOf => (true, Relationship::AncestorOf),
            RelationshipType::VariantOf => (false, Relationship::VariantOf),
            RelationshipType::BuildToolOf => (false, Relationship::BuildToolOf),
            RelationshipType::DevToolOf => (false, Relationship::DevToolOf),
            RelationshipType::Other => {
                return Err(());
            },
        };
        if swap {
            Ok(SpdxRelationship(right.to_string(), kind, left.to_string()))
        } else {
            Ok(SpdxRelationship(left.to_string(), kind, right.to_string()))
        }
    }
}

/// A reference from a package to an outside identifier (a package URL, a CPE, ...).
pub struct ExternalReference {
    pub reference_type: String,
    pub reference_locator: String,
}

pub struct PackageInformation {
    pub package_spdx_identifier: String,
    pub package_name: String,
    pub package_version: Option<String>,
    pub package_supplier: Option<String>,
    pub external_reference: Vec<ExternalReference>,
}

pub struct FileInformation {
    pub file_spdx_identifier: String,
    pub file_name: String,
}

/// One relationship as the document states it.
pub struct RelationshipEntry {
    pub spdx_element_id: String,
    pub relationship_type: RelationshipType,
    pub related_spdx_element: String,
}

/// The parts of an SPDX document that ingestion reads.
pub struct Spdx {
    pub spdx_identifier: String,
    pub document_name: String,
    pub document_describes: Vec<String>,
    pub package_information: Vec<PackageInformation>,
    pub file_information: Vec<FileInformation>,
    pub relationships: Vec<RelationshipEntry>,
    /// When the document was created, in seconds since the Unix epoch.
    pub created: Option<i64>,
    pub creators: Vec<String>,
}

/// What an SBOM row records of its document.
pub struct SbomInformation {
    pub node_id: String,
    pub name: String,
    pub published: Option<i64>,
    pub authors: Vec<String>,
}

impl SbomInformation {
    /// The document root's identifier and name, its creation time and its creators.
    pub fn from(doc: &Spdx) -> (r: SbomInformation)
        ensures
            r.node_id@ == doc.spdx_identifier@,
            r.name@ == doc.document_name@,
            r.published == doc.created,
            r.authors@ == doc.creators@,
    {
        let mut authors: Vec<String> = Vec::new();
        let mut i: usize = 0;
        while i < doc.creators.len()
            invariant
                i <= doc.creators@.len(),
                authors@ == doc.creators@.subrange(0, i as int),
            decreases doc.creators@.len() - i,
        {
            authors.push(doc.creators[i].clone());
            proof {
                assert(authors@ =~= doc.creators@.subrange(0, i + 1));
            }
            i = i + 1;
        }
        proof {
            assert(doc.creators@.subrange(0, i as int) =~= doc.creators@);
        }
        SbomInformation {
            node_id: doc.spdx_identifier.clone(),
            name: doc.document_name.clone(),
            published: doc.created,
            authors,
        }
    }
}

/// What ties a package node to the global graph: the identifier of a
/// qualified package or of a CPE.
#[derive(Clone, Copy, Debug, PartialEq, Eq, Structural)]
pub enum PackageReference {
    Purl(u128),
    Cpe(u128),
}

/// A package node of an SBOM, with its references to the global graph.
pub struct SbomPackage {
    pub node_id: String,
    pub name: String,
    pub version: Option<String>,
    pub references: Vec<PackageReference>,
}

pub struct SbomFile {
    pub node_id: String,
    pub name: String,
}

/// A package that the document describes, registered as a product.
pub struct Product {
    pub name: String,
    pub vendor: Option<String>,
    pub version: Option<String>,
}

/// An SBOM being ingested, known by its identifier.
pub struct SbomContext {
    pub sbom_id: u128,
}

/// The rows that ingesting one SBOM creates, in the order they are flushed.
pub struct SbomIngest {
    pub sbom_id: u128,
    pub purls: PurlCreator,
    /// The CPEs that the packages reference, each identifier once.
    pub cpes: Vec<Cpe>,
    pub packages: Vec<SbomPackage>,
    pub files: Vec<SbomFile>,
    pub relationships: Vec<SpdxRelationship>,
    pub products: Vec<Product>,
}

#[derive(Debug)]
pub enum IngestError {
    /// A relationship names a node that the document does not hold.
    InvalidReference(String),
}

pub open spec fn opt_view(o: Option<String>) -> Option<Seq<char>> {
    match o {
        Some(s) => Some(s@),
        None => None,
    }
}

/// The edges that the document's relationships map to, in order,
/// unknown kinds dropped.
pub open spec fn relationship_edges(rs: Seq<RelationshipEntry>) -> Seq<Edge>
    decreases rs.len(),
{
    if rs.len() == 0 {
        seq![]
    } else {
        let r = rs.last();
        match spdx_edge(r.spdx_element_id@, r.relationship_type, r.related_spdx_element@) {
            Some(e) => relationship_edges(rs.drop_last()).push(e),
            None => relationship_edges(rs.drop_last()),
        }
    }
}

/// Every edge of the document: one `DescribedBy` edge to the document root
/// for each described element, then the relationship_edges relationships.
pub open spec fn spec_edges(doc: &Spdx) -> Seq<Edge> {
    doc.document_describes@.map_values(|d: String| (d@, Relationship::DescribedBy, doc.spdx_identifier@))
        + relationship_edges(doc.relationships@)
}

/// Whether `id` names the document root, one of its packages or one of its files.
pub open spec fn known_node(doc: &Spdx, id: Seq<char>) -> bool {
    id == doc.spdx_identifier@
        || (exists|i: int| 0 <= i < doc.package_information@.len()
            && (#[trigger] doc.package_information@[i]).package_spdx_identifier@ == id)
        || (exists|i: int| 0 <= i < doc.file_information@.len()
            && (#[trigger] doc.file_information@[i]).file_spdx_identifier@ == id)
}

/// Every edge starts and ends at a node of the document.
pub open spec fn edges_closed(doc: &Spdx) -> bool {
    forall|i: int| 0 <= i < spec_edges(doc).len() ==>
        known_node(doc, (#[trigger] spec_edges(doc)[i]).0) && known_node(doc, spec_edges(doc)[i].2)
}

/// Whether the element `id` is described: the left end of a `DescribedBy` edge.
pub open spec fn is_described(doc: &Spdx, id: Seq<char>) -> bool {
    exists|i: int| 0 <= i < spec_edges(doc).len()
        && (#[trigger] spec_edges(doc)[i]).1 == Relationship::DescribedBy && spec_edges(doc)[i].0 == id
}

/// The package URLs among a package's outside references, in order; those
/// that do not parse are skipped.
pub open spec fn purl_refs(refs: Seq<ExternalReference>) -> Seq<PurlView>
    decreases refs.len(),
{
    if refs.len() == 0 {
        seq![]
    } else {
        let r = refs.last();
        if r.reference_type@ == "purl"@ && package_url_parts(r.reference_locator@) is Some {
            purl_refs(refs.drop_last()).push(purl_of_parts(package_url_parts(r.reference_locator@)->Some_0))
        } else {
            purl_refs(refs.drop_last())
        }
    }
}

/// The products of a document: its described packages, in order.
pub open spec fn spec_products(doc: &Spdx, ps: Seq<PackageInformation>) -> Seq<(Seq<char>, Option<Seq<char>>, Option<Seq<char>>)>
    decreases ps.len(),
{
    if ps.len() == 0 {
        seq![]
    } else {
        let p = ps.last();
        if is_described(doc, p.package_spdx_identifier@) {
            spec_products(doc, ps.drop_last()).push(
                (p.package_name@, opt_view(p.package_supplier), opt_view(p.package_version)),
            )
        } else {
            spec_products(doc, ps.drop_last())
        }
    }
}

pub open spec fn product_view(p: Product) -> (Seq<char>, Option<Seq<char>>, Option<Seq<char>>) {
    (p.name@, opt_view(p.vendor), opt_view(p.version))
}

/// The package URLs that the packages reference, in order.
pub open spec fn document_purls(ps: Seq<PackageInformation>) -> Seq<PurlView>
    decreases ps.len(),
{
    if ps.len() == 0 {
        seq![]
    } else {
        document_purls(ps.drop_last()) + purl_refs(ps.last().external_reference@)
    }
}

/// The references of a package, in order: a package URL that parses gives
/// its qualified-package identifier, a CPE 2.2 name that parses gives its
/// CPE identifier; anything else is skipped.
pub open spec fn package_refs(refs: Seq<ExternalReference>) -> Seq<PackageReference>
    decreases refs.len(),
{
    if refs.len() == 0 {
        seq![]
    } else {
        let r = refs.last();
        let pre = package_refs(refs.drop_last());
        if r.reference_type@ == "purl"@ && package_url_parts(r.reference_locator@) is Some {
            pre.push(PackageReference::Purl(spec_qualifier_uuid(purl_of_parts(package_url_parts(r.reference_locator@)->Some_0))))
        } else if r.reference_type@ == "cpe22Type"@ && cpe_canonical(r.reference_locator@) is Some {
            pre.push(PackageReference::Cpe(spec_cpe_uuid(cpe_canonical(r.reference_locator@)->Some_0)))
        } else {
            pre
        }
    }
}

/// The canonical forms of a package's CPE references that parse, in order.
pub open spec fn cpe_refs(refs: Seq<ExternalReference>) -> Seq<Seq<char>>
    decreases refs.len(),
{
    if refs.len() == 0 {
        seq![]
    } else {
        let r = refs.last();
        if r.reference_type@ == "cpe22Type"@ && cpe_canonical(r.reference_locator@) is Some {
            cpe_refs(refs.drop_last()).push(cpe_canonical(r.reference_locator@)->Some_0)
        } else {
            cpe_refs(refs.drop_last())
        }
    }
}

/// The CPEs that the packages reference, in order.
pub open spec fn document_cpes(ps: Seq<PackageInformation>) -> Seq<Seq<char>>
    decreases ps.len(),
{
    if ps.len() == 0 {
        seq![]
    } else {
        document_cpes(ps.drop_last()) + cpe_refs(ps.last().external_reference@)
    }
}

/// What adding CPEs in order leaves: each identifier once, the first kept.
pub open spec fn cpes_added(acc: Seq<Seq<char>>, cs: Seq<Seq<char>>) -> Seq<Seq<char>>
    decreases cs.len(),
{
    if cs.len() == 0 {
        acc
    } else {
        let pre = cpes_added(acc, cs.drop_last());
        if exists|j: int| 0 <= j < pre.len() && spec_cpe_uuid(#[trigger] pre[j]) == spec_cpe_uuid(cs.last()) {
            pre
        } else {
            pre.push(cs.last())
        }
    }
}

pub proof fn lemma_cpes_added_concat(acc: Seq<Seq<char>>, s: Seq<Seq<char>>, t: Seq<Seq<char>>)
    ensures
        cpes_added(cpes_added(acc, s), t) == cpes_added(acc, s + t),
    decreases t.len(),
{
    if t.len() > 0 {
        lemma_cpes_added_concat(acc, s, t.drop_last());
        assert((s + t).drop_last() =~= s + t.drop_last());
        assert((s + t).last() == t.last());
    }
}

pub open spec fn cpe_views(cs: Seq<Cpe>) -> Seq<Seq<char>> {
    cs.map_values(|c: Cpe| c.canonical@)
}

/// Each CPE with the identifier of its canonical form.
pub open spec fn cpes_wf(cs: Seq<Cpe>) -> bool {
    forall|k: int| 0 <= k < cs.len() ==> (#[trigger] cs[k]).id == spec_cpe_uuid(cs[k].canonical@)
}

/// Adds a CPE unless one of that identifier is held.
fn add_cpe(cpes: &mut Vec<Cpe>, cpe: Cpe)
    requires
        cpes_wf(old(cpes)@),
        cpe.id == spec_cpe_uuid(cpe.canonical@),
    ensures
        cpes_wf(final(cpes)@),
        cpe_views(final(cpes)@) == cpes_added(cpe_views(old(cpes)@), seq![cpe.canonical@]),
{
    let ghost ov = cpe_views(cpes@);
    let ghost one = seq![cpe.canonical@];
    proof {
        assert(one.drop_last() =~= Seq::<Seq<char>>::empty());
        assert(cpes_added(ov, one.drop_last()) == ov);
    }
    let mut i: usize = 0;
    while i < cpes.len()
        invariant
            i <= cpes@.len(),
            *cpes == *old(cpes),
            ov == cpe_views(cpes@),
            cpes_wf(cpes@),
            cpe.id == spec_cpe_uuid(cpe.canonical@),
            forall|j: int| 0 <= j < i ==> spec_cpe_uuid(#[trigger] ov[j]) != spec_cpe_uuid(cpe.canonical@),
        decreases cpes@.len() - i,
    {
        if cpes[i].id == cpe.id {
            proof {
                assert(cpes@[i as int].id == spec_cpe_uuid(cpes@[i as int].canonical@));
                assert(ov[i as int] == cpes@[i as int].canonical@);
                assert(spec_cpe_uuid(ov[i as int]) == spec_cpe_uuid(cpe.canonical@));
                let one = seq![cpe.canonical@];
                assert(one.drop_last() =~= Seq::<Seq<char>>::empty());
                assert(cpes_added(ov, one.drop_last()) == ov);
                assert(one.last() == cpe.canonical@);
            }
            return;
        }
        proof {
            assert(cpes@[i as int].id == spec_cpe_uuid(cpes@[i as int].canonical@));
            assert(ov[i as int] == cpes@[i as int].canonical@);
        }
        i = i + 1;
    }
    cpes.push(cpe);
    proof {
        assert(cpe_views(cpes@) =~= ov.push(cpe.canonical@));
    }
}

/// The references of a package; the package URLs go to the creator and the
/// CPEs to `cpes`, each once.
fn package_references(refs: &Vec<ExternalReference>, purls: &mut PurlCreator, cpes: &mut Vec<Cpe>) -> (r: Vec<PackageReference>)
    requires
        old(purls).wf(),
        cpes_wf(old(cpes)@),
    ensures
        final(purls).wf(),
        cpes_wf(final(cpes)@),
        r@ == package_refs(refs@),
        purl_views(final(purls).purls@) == views_added(purl_views(old(purls).purls@), purl_refs(refs@)),
        cpe_views(final(cpes)@) == cpes_added(cpe_views(old(cpes)@), cpe_refs(refs@)),
{
    let mut out: Vec<PackageReference> = Vec::new();
    let ghost start = purl_views(purls.purls@);
    let ghost cstart = cpe_views(cpes@);
    proof {
        reveal_strlit("purl");
        reveal_strlit("cpe22Type");
        assert("purl"@.len() != "cpe22Type"@.len());
    }
    let mut i: usize = 0;
    while i < refs.len()
        invariant
            i <= refs@.len(),
            purls.wf(),
            cpes_wf(cpes@),
            "purl"@ != "cpe22Type"@,
            out@ == package_refs(refs@.subrange(0, i as int)),
            purl_views(purls.purls@) == views_added(start, purl_refs(refs@.subrange(0, i as int))),
            cpe_views(cpes@) == cpes_added(cstart, cpe_refs(refs@.subrange(0, i as int))),
        decreases refs@.len() - i,
    {
        let r = &refs[i];
        proof {
            let pre = refs@.subrange(0, i + 1);
            assert(pre.drop_last() =~= refs@.subrange(0, i as int));
            assert(pre.last() == refs@[i as int]);
        }
        if str_eq(r.reference_type.as_str(), "purl") {
            match Purl::from_str(r.reference_locator.as_str()) {
                Ok(p) => {
                    let ghost before = purls.purls@;
                    let ghost prefix = purl_refs(refs@.subrange(0, i as int));
                    out.push(PackageReference::Purl(p.qualifier_uuid()));
                    purls.add(p);
                    proof {
                        PurlCreator::lemma_add_views(before, purls.purls@, p);
                        lemma_views_added_concat(start, prefix, seq![p@]);
                        assert(prefix + seq![p@] =~= prefix.push(p@));
                    }
                },
                Err(_) => {},
            }
        } else if str_eq(r.reference_type.as_str(), "cpe22Type") {
            match Cpe::from_str(r.reference_locator.as_str()) {
                Some(c) => {
                    let ghost prefix = cpe_refs(refs@.subrange(0, i as int));
                    out.push(PackageReference::Cpe(c.id));
                    let ghost canonical = c.canonical@;
                    add_cpe(cpes, c);
                    proof {
                        lemma_cpes_added_concat(cstart, prefix, seq![canonical]);
                        assert(prefix + seq![canonical] =~= prefix.push(canonical));
                    }
                },
                None => {},
            }
        }
        i = i + 1;
    }
    proof {
        assert(refs@.subrange(0, i as int) =~= refs@);
    }
    out
}

/// Whether `id` names a node of the document.
fn is_known(doc: &Spdx, id: &str) -> (r: bool)
    ensures
        r == known_node(doc, id@),
{
    if str_eq(doc.spdx_identifier.as_str(), id) {
        return true;
    }
    let mut i: usize = 0;
    while i < doc.package_information.len()
        invariant
            i <= doc.package_information@.len(),
            forall|j: int| 0 <= j < i ==> (#[trigger] doc.package_information@[j]).package_spdx_identifier@ != id@,
        decreases doc.package_information@.len() - i,
    {
        if str_eq(doc.package_information[i].package_spdx_identifier.as_str(), id) {
            return true;
        }
        i = i + 1;
    }
    let mut i: usize = 0;
    while i < doc.file_information.len()
        invariant
            i <= doc.file_information@.len(),
            forall|j: int| 0 <= j < i ==> (#[trigger] doc.file_information@[j]).file_spdx_identifier@ != id@,
            forall|j: int| 0 <= j < doc.package_information@.len() ==> (#[trigger] doc.package_information@[j]).package_spdx_identifier@ != id@,
        decreases doc.file_information@.len() - i,
    {
        if str_eq(doc.file_information[i].file_spdx_identifier.as_str(), id) {
            return true;
        }
        i = i + 1;
    }
    false
}

pub open spec fn edges_of(rs: Seq<SpdxRelationship>) -> Seq<Edge> {
    rs.map_values(|r: SpdxRelationship| r.edge())
}

/// The edges of the document, in order.
fn collect_edges(doc: &Spdx) -> (r: Vec<SpdxRelationship>)
    ensures
        edges_of(r@) == spec_edges(doc),
{
    let mut out: Vec<SpdxRelationship> = Vec::new();
    let mut i: usize = 0;
    let ghost root = doc.spdx_identifier@;
    let ghost described = doc.document_describes@.map_values(|d: String| (d@, Relationship::DescribedBy, root));
    while i < doc.document_describes.len()
        invariant
            i <= doc.document_describes@.len(),
            root == doc.spdx_identifier@,
            described == doc.document_describes@.map_values(|d: String| (d@, Relationship::DescribedBy, root)),
            edges_of(out@) == described.subrange(0, i as int),
        decreases doc.document_describes@.len() - i,
    {
        let ghost before = out@;
        let e = SpdxRelationship(doc.document_describes[i].clone(), Relationship::DescribedBy, doc.spdx_identifier.clone());
        assert(e.edge() == described[i as int]);
        out.push(e);
        proof {
            assert(edges_of(out@) =~= edges_of(before).push(e.edge()));
            assert(edges_of(out@) =~= described.subrange(0, i + 1));
        }
        i = i + 1;
    }
    proof {
        assert(described.subrange(0, i as int) =~= described);
    }
    let mut j: usize = 0;
    while j < doc.relationships.len()
        invariant
            j <= doc.relationships@.len(),
            described == doc.document_describes@.map_values(|d: String| (d@, Relationship::DescribedBy, root)),
            root == doc.spdx_identifier@,
            edges_of(out@) == described + relationship_edges(doc.relationships@.subrange(0, j as int)),
        decreases doc.relationships@.len() - j,
    {
        let rel = &doc.relationships[j];
        proof {
            let pre = doc.relationships@.subrange(0, j + 1);
            assert(pre.drop_last() =~= doc.relationships@.subrange(0, j as int));
            assert(pre.last() == doc.relationships@[j as int]);
        }
        match SpdxRelationship::try_from(rel.spdx_element_id.as_str(), rel.relationship_type, rel.related_spdx_element.as_str()) {
            Ok(e) => {
                let ghost before = out@;
                out.push(e);
                proof {
                    assert(edges_of(out@) =~= edges_of(before).push(e.edge()));
                    assert(edges_of(out@) =~= described + relationship_edges(doc.relationships@.subrange(0, j + 1)));
                }
            },
            Err(_) => {},
        }
        j = j + 1;
    }
    proof {
        assert(doc.relationships@.subrange(0, j as int) =~= doc.relationships@);
    }
    out
}

/// The first node that an edge names and the document does not hold, if any.
fn check_references(doc: &Spdx, edges: &Vec<SpdxRelationship>) -> (r: Option<String>)
    ensures
        match r {
            None => forall|i: int| 0 <= i < edges@.len() ==>
                known_node(doc, (#[trigger] edges@[i]).0@) && known_node(doc, edges@[i].2@),
            Some(id) => !known_node(doc, id@) && exists|i: int| 0 <= i < edges@.len()
                && ((#[trigger] edges@[i]).0@ == id@ || edges@[i].2@ == id@),
        },
{
    let mut i: usize = 0;
    while i < edges.len()
        invariant
            i <= edges@.len(),
            forall|j: int| 0 <= j < i ==> known_node(doc, (#[trigger] edges@[j]).0@) && known_node(doc, edges@[j].2@),
        decreases edges@.len() - i,
    {
        if !is_known(doc, edges[i].0.as_str()) {
            return Some(edges[i].0.clone());
        }
        if !is_known(doc, edges[i].2.as_str()) {
            return Some(edges[i].2.clone());
        }
        i = i + 1;
    }
    None
}

/// Maps an SPDX document onto the rows of its SBOM: one package node
/// per package, with the identifiers of the package URLs and CPEs it
/// references, which are gathered once each; one file node per
/// file; the edges, normalized to point from child to parent; and a product
/// for each described package. Fails when an edge names a node that is
/// neither the document root nor one of its packages or files.
impl SbomContext {
pub fn ingest_spdx(&self, doc: &Spdx) -> (r: Result<SbomIngest, IngestError>)
    ensures
        r is Ok ==> r->Ok_0.sbom_id == self.sbom_id,
        r is Ok <==> edges_closed(doc),
        match r {
            Ok(ingest) => {
                &&& edges_of(ingest.relationships@) == spec_edges(doc)
                &&& forall|i: int| 0 <= i < ingest.relationships@.len() ==>
                    known_node(doc, (#[trigger] ingest.relationships@[i]).0@) && known_node(doc, ingest.relationships@[i].2@)
                &&& ingest.packages@.len() == doc.package_information@.len()
                &&& forall|i: int| 0 <= i < ingest.packages@.len() ==> {
                    let p = #[trigger] ingest.packages@[i];
                    let q = doc.package_information@[i];
                    &&& p.node_id@ == q.package_spdx_identifier@
                    &&& p.name@ == q.package_name@
                    &&& opt_view(p.version) == opt_view(q.package_version)
                    &&& p.references@ == package_refs(q.external_reference@)
                }
                &&& ingest.purls.wf()
                &&& cpes_wf(ingest.cpes@)
                &&& cpe_views(ingest.cpes@) == cpes_added(seq![], document_cpes(doc.package_information@))
                &&& purl_views(ingest.purls.purls@) == views_added(seq![], document_purls(doc.package_information@))
                &&& ingest.files@.len() == doc.file_information@.len()
                &&& forall|i: int| 0 <= i < ingest.files@.len() ==> {
                    let f = #[trigger] ingest.files@[i];
                    &&& f.node_id@ == doc.file_information@[i].file_spdx_identifier@
                    &&& f.name@ == doc.file_information@[i].file_name@
                }
                &&& ingest.products@.map_values(|p: Product| product_view(p)) == spec_products(doc, doc.package_information@)
            },
            Err(IngestError::InvalidReference(id)) => !known_node(doc, id@)
                && exists|i: int| 0 <= i < spec_edges(doc).len()
                    && ((#[trigger] spec_edges(doc)[i]).0 == id@ || spec_edges(doc)[i].2 == id@),
        },
{
    let relationships = collect_edges(doc);
    match check_references(doc, &relationships) {
        Some(id) => {
            proof {
                let i = choose|i: int| 0 <= i < relationships@.len()
                    && ((#[trigger] relationships@[i]).0@ == id@ || relationships@[i].2@ == id@);
                assert(edges_of(relationships@)[i] == spec_edges(doc)[i]);
                if edges_closed(doc) {
                    assert(known_node(doc, spec_edges(doc)[i].0) && known_node(doc, spec_edges(doc)[i].2));
                }
            }
            return Err(IngestError::InvalidReference(id));
        },
        None => {
            proof {
                assert forall|i: int| 0 <= i < spec_edges(doc).len() implies
                    known_node(doc, (#[trigger] spec_edges(doc)[i]).0) && known_node(doc, spec_edges(doc)[i].2) by {
                    assert(edges_of(relationships@)[i] == spec_edges(doc)[i]);
                    assert(known_node(doc, relationships@[i].0@));
                }
            }
        },
    }
    let mut packages: Vec<SbomPackage> = Vec::new();
    let mut purls = PurlCreator::new();
    let mut cpes: Vec<Cpe> = Vec::new();
    proof {
        assert(purl_views(purls.purls@) =~= Seq::<PurlView>::empty());
        assert(cpe_views(cpes@) =~= Seq::<Seq<char>>::empty());
    }
    let mut products: Vec<Product> = Vec::new();
    let mut i: usize = 0;
    while i < doc.package_information.len()
        invariant
            i <= doc.package_information@.len(),
            edges_of(relationships@) == spec_edges(doc),
            packages@.len() == i,
            forall|k: int| 0 <= k < i ==> {
                let p = #[trigger] packages@[k];
                let q = doc.package_information@[k];
                &&& p.node_id@ == q.package_spdx_identifier@
                &&& p.name@ == q.package_name@
                &&& opt_view(p.version) == opt_view(q.package_version)
                &&& p.references@ == package_refs(q.external_reference@)
            },
            purls.wf(),
            cpes_wf(cpes@),
            cpe_views(cpes@) == cpes_added(seq![], document_cpes(doc.package_information@.subrange(0, i as int))),
            purl_views(purls.purls@) == views_added(seq![], document_purls(doc.package_information@.subrange(0, i as int))),
            products@.map_values(|p: Product| product_view(p)) == spec_products(doc, doc.package_information@.subrange(0, i as int)),
        decreases doc.package_information@.len() - i,
    {
        let package = &doc.package_information[i];
        let references = package_references(&package.external_reference, &mut purls, &mut cpes);
        proof {
            lemma_cpes_added_concat(seq![], document_cpes(doc.package_information@.subrange(0, i as int)),
                cpe_refs(package.external_reference@));
            let pre = doc.package_information@.subrange(0, i + 1);
            assert(pre.drop_last() =~= doc.package_information@.subrange(0, i as int));
            lemma_views_added_concat(seq![], document_purls(doc.package_information@.subrange(0, i as int)),
                purl_refs(package.external_reference@));
        }
        packages.push(SbomPackage {
            node_id: package.package_spdx_identifier.clone(),
            name: package.package_name.clone(),
            version: package.package_version.clone(),
            references,
        });
        let described = is_described_exec(&relationships, package.package_spdx_identifier.as_str());
        proof {
            let pre = doc.package_information@.subrange(0, i + 1);
            assert(pre.drop_last() =~= doc.package_information@.subrange(0, i as int));
            assert(pre.last() == doc.package_information@[i as int]);
            if described {
                let k = choose|k: int| 0 <= k < relationships@.len() && (#[trigger] relationships@[k]).1 == Relationship::DescribedBy
                    && relationships@[k].0@ == package.package_spdx_identifier@;
                assert(edges_of(relationships@)[k] == spec_edges(doc)[k]);
            } else if is_described(doc, package.package_spdx_identifier@) {
                let k = choose|k: int| 0 <= k < spec_edges(doc).len()
                    && (#[trigger] spec_edges(doc)[k]).1 == Relationship::DescribedBy && spec_edges(doc)[k].0 == package.package_spdx_identifier@;
                assert(edges_of(relationships@)[k] == spec_edges(doc)[k]);
            }
        }
        if described {
            products.push(Product {
                name: package.package_name.clone(),
                vendor: package.package_supplier.clone(),
                version: package.package_version.clone(),
            });
            proof {
                assert(products@.map_values(|p: Product| product_view(p)) =~= spec_products(doc, doc.package_information@.subrange(0, i + 1)));
            }
        } else {
            proof {
                assert(products@.map_values(|p: Product| product_view(p)) =~= spec_products(doc, doc.package_information@.subrange(0, i + 1)));
            }
        }
        i = i + 1;
    }
    proof {
        assert(doc.package_information@.subrange(0, i as int) =~= doc.package_information@);
    }
    let mut files: Vec<SbomFile> = Vec::new();
    let mut i: usize = 0;
    while i < doc.file_information.len()
        invariant
            i <= doc.file_information@.len(),
            files@.len() == i,
            forall|k: int| 0 <= k < i ==> {
                let f = #[trigger] files@[k];
                &&& f.node_id@ == doc.file_information@[k].file_spdx_identifier@
                &&& f.name@ == doc.file_information@[k].file_name@
            },
        decreases doc.file_information@.len() - i,
    {
        files.push(SbomFile {
            node_id: doc.file_information[i].file_spdx_identifier.clone(),
            name: doc.file_information[i].file_name.clone(),
        });
        i = i + 1;
    }
    proof {
        assert forall|i: int| 0 <= i < relationships@.len() implies
            known_node(doc, (#[trigger] relationships@[i]).0@) && known_node(doc, relationships@[i].2@) by {
            assert(edges_of(relationships@)[i] == spec_edges(doc)[i]);
        }
    }
    Ok(SbomIngest { sbom_id: self.sbom_id, purls, cpes, packages, files, relationships, products })
}
}

/// Whether some edge says that `id` is described.
fn is_described_exec(edges: &Vec<SpdxRelationship>, id: &str) -> (r: bool)
    ensures
        r == exists|k: int| 0 <= k < edges@.len() && (#[trigger] edges@[k]).1 == Relationship::DescribedBy
            && edges@[k].0@ == id@,
{
    let mut k: usize = 0;
    while k < edges.len()
        invariant
            k <= edges@.len(),
            forall|j: int| 0 <= j < k ==> !((#[trigger] edges@[j]).1 == Relationship::DescribedBy && edges@[j].0@ == id@),
        decreases edges@.len() - k,
    {
        if edges[k].1 == Relationship::DescribedBy && str_eq(edges[k].0.as_str(), id) {
            return true;
        }
        k = k + 1;
    }
    false
}

/// Whether `spdx_expression` accepts `s` as an SPDX license expression.
pub uninterp spec fn license_expression_valid(s: Seq<char>) -> bool;

/// A character that may stand in an SPDX license or document identifier.
pub open spec fn id_char(c: char) -> bool {
    ('a' <= c && c <= 'z') || ('A' <= c && c <= 'Z') || ('0' <= c && c <= '9') || c == '-' || c == '.'
}

pub open spec fn document_ref_prefix() -> Seq<char> {
    seq!['D', 'o', 'c', 'u', 'm', 'e', 'n', 't', 'R', 'e', 'f', '-']
}

/// `DocumentRef-<id>` with nothing after it: a document reference that lacks
/// its `:LicenseRef-` part.
pub open spec fn bare_document_ref(t: Seq<char>) -> bool {
    t.len() > 12 && t.subrange(0, 12) == document_ref_prefix()
}

pub open spec fn is_letter(c: char, lower: char, upper: char) -> bool {
    c == lower || c == upper
}

/// A last word that is, or follows `AND` or `OR` directly with, a bare
/// document reference.
pub open spec fn word_is_bare_document_ref(t: Seq<char>) -> bool {
    ||| bare_document_ref(t)
    ||| (t.len() >= 3 && is_letter(t[0], 'a', 'A') && is_letter(t[1], 'n', 'N') && is_letter(t[2], 'd', 'D')
        && bare_document_ref(t.subrange(3, t.len() as int)))
    ||| (t.len() >= 2 && is_letter(t[0], 'o', 'O') && is_letter(t[1], 'r', 'R')
        && bare_document_ref(t.subrange(2, t.len() as int)))
}

/// Where the last word of `s` starts: identifier characters from `i` to the
/// end, and none just before.
pub open spec fn last_word_start(s: Seq<char>, i: int) -> bool {
    &&& 0 <= i <= s.len()
    &&& forall|j: int| i <= j < s.len() ==> id_char(#[trigger] s[j])
    &&& (i == 0 || !id_char(s[i - 1]))
}

/// An expression whose last word is a bare document reference, which lacks
/// the `:LicenseRef-` part that a document reference needs. The parser does
/// not return on some such expressions (it waits for the `:`), so all of them
/// count as faulty without being parsed.
pub open spec fn unterminated_document_ref(s: Seq<char>) -> bool {
    exists|i: int| last_word_start(s, i) && word_is_bare_document_ref(s.subrange(i, s.len() as int))
}

/// Relies on `spdx_expression::SpdxExpression::parse`, whose success depends
/// on the expression text alone, and which accepts `NOASSERTION` and `NONE`
/// (its documentation says so). It does not return on an unterminated
/// document reference, which is left out.
#[verifier::external_body]
fn parse_license_expression(s: &str) -> (r: bool)
    requires
        !unterminated_document_ref(s@),
    ensures
        r == license_expression_valid(s@),
        s@ == noassertion() ==> r,
        s@ == seq!['N', 'O', 'N', 'E'] ==> r,
{
    spdx_expression::SpdxExpression::parse(s).is_ok()
}

fn is_id_char(c: char) -> (r: bool)
    ensures
        r == id_char(c),
{
    ('a' <= c && c <= 'z') || ('A' <= c && c <= 'Z') || ('0' <= c && c <= '9') || c == '-' || c == '.'
}

fn document_ref_char(k: usize) -> (r: char)
    requires
        k < 12,
    ensures
        r == document_ref_prefix()[k as int],
{
    match k {
        0 => 'D',
        1 => 'o',
        2 => 'c',
        3 => 'u',
        4 => 'm',
        5 => 'e',
        6 => 'n',
        7 => 't',
        8 => 'R',
        9 => 'e',
        10 => 'f',
        _ => '-',
    }
}

/// Whether the characters of `s` from `from` to the end are a bare document reference.
fn bare_document_ref_at(s: &str, from: usize, n: usize) -> (r: bool)
    requires
        n == s@.len(),
        from <= n,
    ensures
        r == bare_document_ref(s@.subrange(from as int, n as int)),
{
    if n - from <= 12 {
        return false;
    }
    let ghost t = s@.subrange(from as int, n as int);
    let mut k: usize = 0;
    while k < 12
        invariant
            k <= 12,
            from + 12 < n,
            n == s@.len(),
            t == s@.subrange(from as int, n as int),
            forall|m: int| 0 <= m < k ==> t[m] == document_ref_prefix()[m],
        decreases 12 - k,
    {
        if s.get_char(from + k) != document_ref_char(k) {
            proof {
                assert(t.subrange(0, 12)[k as int] != document_ref_prefix()[k as int]);
            }
            return false;
        }
        k = k + 1;
    }
    proof {
        assert(t.subrange(0, 12) =~= document_ref_prefix());
    }
    true
}

/// Whether the last word of `s` is a bare document reference.
fn has_unterminated_document_ref(s: &str) -> (r: bool)
    ensures
        r == unterminated_document_ref(s@),
{
    let n = s.unicode_len();
    let mut i: usize = n;
    while i > 0 && is_id_char(s.get_char(i - 1))
        invariant
            i <= n,
            n == s@.len(),
            forall|j: int| i <= j < n ==> id_char(#[trigger] s@[j]),
        decreases i,
    {
        i = i - 1;
    }
    proof {
        assert(last_word_start(s@, i as int));
        assert forall|k: int| #[trigger] last_word_start(s@, k) implies k == i by {
            if k < i {
                assert(id_char(s@[i - 1]));
            } else if k > i {
                assert(id_char(s@[k - 1]));
            }
        }
    }
    let t = bare_document_ref_at(s, i, n);
    let ghost w = s@.subrange(i as int, n as int);
    let mut and_form = false;
    if n - i >= 3 {
        let a = s.get_char(i);
        let b = s.get_char(i + 1);
        let c = s.get_char(i + 2);
        if (a == 'a' || a == 'A') && (b == 'n' || b == 'N') && (c == 'd' || c == 'D') {
            and_form = bare_document_ref_at(s, i + 3, n);
            proof {
                assert(w.subrange(3, w.len() as int) =~= s@.subrange(i + 3, n as int));
            }
        }
    }
    let mut or_form = false;
    if n - i >= 2 {
        let a = s.get_char(i);
        let b = s.get_char(i + 1);
        if (a == 'o' || a == 'O') && (b == 'r' || b == 'R') {
            or_form = bare_document_ref_at(s, i + 2, n);
            proof {
                assert(w.subrange(2, w.len() as int) =~= s@.subrange(i + 2, n as int));
            }
        }
    }
    proof {
        if n - i >= 3 {
            assert(w.subrange(3, w.len() as int) =~= s@.subrange(i + 3, n as int));
        }
        if n - i >= 2 {
            assert(w.subrange(2, w.len() as int) =~= s@.subrange(i + 2, n as int));
        }
        assert(word_is_bare_document_ref(w) == (t || and_form || or_form));
    }
    t || and_form || or_form
}

pub open spec fn noassertion() -> Seq<char> {
    seq!['N', 'O', 'A', 'S', 'S', 'E', 'R', 'T', 'I', 'O', 'N']
}

/// Whether a declared license is present and not a valid expression; an
/// unterminated document reference counts as not valid without parsing.
pub open spec fn faulty(declared: Option<String>) -> bool {
    match declared {
        Some(s) => unterminated_document_ref(s@) || !license_expression_valid(s@),
        None => false,
    }
}

/// The declared license after repair: a faulty expression becomes `NOASSERTION`.
pub open spec fn repaired(declared: Option<String>) -> Option<Seq<char>> {
    if faulty(declared) {
        Some(noassertion())
    } else {
        opt_view(declared)
    }
}

pub open spec fn repair_warning(expression: Seq<char>) -> Seq<char> {
    "Replacing faulty SPDX license expression with NOASSERTION: "@ + expression
}

/// The warnings that repairing the declared licenses gives, in order.
pub open spec fn repair_warnings(declared: Seq<Option<String>>) -> Seq<Seq<char>>
    decreases declared.len(),
{
    if declared.len() == 0 {
        seq![]
    } else if faulty(declared.last()) {
        repair_warnings(declared.drop_last()).push(repair_warning(declared.last()->Some_0@))
    } else {
        repair_warnings(declared.drop_last())
    }
}

/// Replaces each declared license of the document's packages that is not a
/// valid SPDX expression with `NOASSERTION`, and warns once for each, naming
/// the expression. Also says whether anything changed.
pub fn fix_license(report: &mut Report, declared: Vec<Option<String>>) -> (r: (Vec<Option<String>>, bool))
    ensures
        r.0@.len() == declared@.len(),
        forall|i: int| 0 <= i < declared@.len() ==> opt_view(#[trigger] r.0@[i]) == repaired(declared@[i]),
        r.1 == exists|i: int| 0 <= i < declared@.len() && faulty(#[trigger] declared@[i]),
        final(report).warnings@.map_values(|w: String| w@)
            == old(report).warnings@.map_values(|w: String| w@) + repair_warnings(declared@),
        final(report).errors@ == old(report).errors@,
{
    let mut out: Vec<Option<String>> = Vec::new();
    let mut changed = false;
    let mut i: usize = 0;
    let ghost start = report.warnings@.map_values(|w: String| w@);
    while i < declared.len()
        invariant
            i <= declared@.len(),
            out@.len() == i,
            forall|k: int| 0 <= k < i ==> opt_view(#[trigger] out@[k]) == repaired(declared@[k]),
            changed == exists|k: int| 0 <= k < i && faulty(#[trigger] declared@[k]),
            report.warnings@.map_values(|w: String| w@) == start + repair_warnings(declared@.subrange(0, i as int)),
            report.errors@ == old(report).errors@,
            start == old(report).warnings@.map_values(|w: String| w@),
        decreases declared@.len() - i,
    {
        proof {
            let pre = declared@.subrange(0, i + 1);
            assert(pre.drop_last() =~= declared@.subrange(0, i as int));
            assert(pre.last() == declared@[i as int]);
        }
        let ghost before = report.warnings@;
        match &declared[i] {
            Some(expression) => {
                if !has_unterminated_document_ref(expression.as_str())
                    && parse_license_expression(expression.as_str()) {
                    out.push(Some(expression.clone()));
                } else {
                    let mut message = String::new();
                    message.append("Replacing faulty SPDX license expression with NOASSERTION: ");
                    message.append(expression.as_str());
                    report.warning(message);
                    out.push(Some("NOASSERTION".to_string()));
                    changed = true;
                    proof {
                        reveal_strlit("NOASSERTION");
                        assert(message@ =~= repair_warning(expression@));
                        assert(report.warnings@.map_values(|w: String| w@)
                            =~= before.map_values(|w: String| w@).push(message@));
                    }
                }
            },
            None => {
                out.push(None);
            },
        }
        proof {
            assert(report.warnings@.map_values(|w: String| w@)
                =~= start + repair_warnings(declared@.subrange(0, i + 1)));
        }
        i = i + 1;
    }
    proof {
        assert(declared@.subrange(0, i as int) =~= declared@);
    }
    (out, changed)
}

} // verus!
