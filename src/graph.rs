//! The vulnerability and advisory tables of the graph, and their upserts.

use vstd::prelude::*;
use crate::cve::{AdvisoryInformation, AdvisoryVulnerabilityInformation, CveIngest, VulnerabilityInformation};
use crate::text::str_eq;

verus! {

pub struct VulnerabilityRow {
    pub identifier: String,
    pub info: VulnerabilityInformation,
}

/// A description of a vulnerability in one language.
pub struct DescriptionRow {
    pub vulnerability: String,
    pub language: String,
    pub text: String,
}

/// An advisory, known by the SHA-256 digest of its document; it also holds
/// the document's SHA-384 and SHA-512 digests and its labels.
pub struct AdvisoryRow {
    pub id: u128,
    pub sha256: String,
    pub sha384: String,
    pub sha512: String,
    pub labels: Vec<(String, String)>,
    pub identifier: String,
    pub info: AdvisoryInformation,
}

/// The edge from an advisory to a vulnerability it speaks of.
pub struct LinkRow {
    pub sha256: String,
    pub vulnerability: String,
    pub info: AdvisoryVulnerabilityInformation,
}

/// The digests of a document's bytes, in hex.
pub struct Digests {
    pub sha256: String,
    pub sha384: String,
    pub sha512: String,
}

/// What an ingest reports: the advisory's id and the document's identifier.
pub struct IngestResult {
    pub id: u128,
    pub document_id: String,
}

/// The graph's vulnerability and advisory tables; each key once.
pub struct Graph {
    pub vulnerabilities: Vec<VulnerabilityRow>,
    pub descriptions: Vec<DescriptionRow>,
    pub advisories: Vec<AdvisoryRow>,
    pub links: Vec<LinkRow>,
    pub products: Vec<ProductRow>,
    pub product_versions: Vec<ProductVersionRow>,
}

/// A product, known by its vendor and name.
pub struct ProductRow {
    pub id: u128,
    pub vendor: Option<String>,
    pub name: String,
}

/// A version of a product, known by the product and the version; it may
/// name the SBOM that describes it.
pub struct ProductVersionRow {
    pub product: u128,
    pub version: String,
    pub sbom_id: Option<u128>,
}

pub open spec fn opt_view(o: Option<String>) -> Option<Seq<char>> {
    match o {
        Some(s) => Some(s@),
        None => None,
    }
}

pub open spec fn product_key(r: ProductRow) -> (Option<Seq<char>>, Seq<char>) {
    (opt_view(r.vendor), r.name@)
}

pub open spec fn has_product(rows: Seq<ProductRow>, vendor: Option<Seq<char>>, name: Seq<char>) -> bool {
    exists|i: int| 0 <= i < rows.len() && product_key(#[trigger] rows[i]) == (vendor, name)
}

pub open spec fn has_product_version(rows: Seq<ProductVersionRow>, product: u128, version: Seq<char>) -> bool {
    exists|i: int| 0 <= i < rows.len() && (#[trigger] rows[i]).product == product && rows[i].version@ == version
}

/// `new` where it holds a value, else `old`.
pub open spec fn keep<T>(old: Option<T>, new: Option<T>) -> Option<T> {
    match new {
        Some(v) => Some(v),
        None => old,
    }
}

/// New values overwrite, but a missing one never clears a present one.
pub open spec fn merge_vulnerability(old: VulnerabilityInformation, new: VulnerabilityInformation) -> VulnerabilityInformation {
    VulnerabilityInformation {
        title: keep(old.title, new.title),
        published: keep(old.published, new.published),
        modified: keep(old.modified, new.modified),
        withdrawn: keep(old.withdrawn, new.withdrawn),
        cwe: keep(old.cwe, new.cwe),
    }
}

pub open spec fn has_vulnerability(rows: Seq<VulnerabilityRow>, id: Seq<char>) -> bool {
    exists|i: int| 0 <= i < rows.len() && (#[trigger] rows[i]).identifier@ == id
}

pub open spec fn has_description(rows: Seq<DescriptionRow>, r: DescriptionRow) -> bool {
    exists|i: int| 0 <= i < rows.len() && (#[trigger] rows[i]).vulnerability@ == r.vulnerability@
        && rows[i].language@ == r.language@ && rows[i].text@ == r.text@
}

pub open spec fn has_advisory(rows: Seq<AdvisoryRow>, sha256: Seq<char>) -> bool {
    exists|i: int| 0 <= i < rows.len() && (#[trigger] rows[i]).sha256@ == sha256
}

pub open spec fn has_link(rows: Seq<LinkRow>, sha256: Seq<char>, vulnerability: Seq<char>) -> bool {
    exists|i: int| 0 <= i < rows.len() && (#[trigger] rows[i]).sha256@ == sha256 && rows[i].vulnerability@ == vulnerability
}

/// The vulnerability table after upserting `id` with `info`.
pub open spec fn vulnerability_upserted(
    old: Seq<VulnerabilityRow>,
    new: Seq<VulnerabilityRow>,
    id: String,
    info: VulnerabilityInformation,
) -> bool {
    if has_vulnerability(old, id@) {
        exists|i: int| 0 <= i < old.len() && (#[trigger] old[i]).identifier@ == id@
            && new == old.update(i, VulnerabilityRow { identifier: old[i].identifier, info: merge_vulnerability(old[i].info, info) })
    } else {
        new == old.push(VulnerabilityRow { identifier: id, info })
    }
}

/// The description table after adding each of `rows` not yet held.
pub open spec fn descriptions_added(old: Seq<DescriptionRow>, rows: Seq<DescriptionRow>) -> Seq<DescriptionRow>
    decreases rows.len(),
{
    if rows.len() == 0 {
        old
    } else {
        let before = descriptions_added(old, rows.drop_last());
        if has_description(before, rows.last()) {
            before
        } else {
            before.push(rows.last())
        }
    }
}

pub open spec fn advisory_replaced(held: AdvisoryRow, row: AdvisoryRow) -> AdvisoryRow {
    AdvisoryRow {
        id: held.id,
        sha256: held.sha256,
        sha384: held.sha384,
        sha512: held.sha512,
        labels: row.labels,
        identifier: row.identifier,
        info: row.info,
    }
}

/// The advisory table after upserting the advisory of digest `sha256`: an
/// advisory held keeps its id and digests and takes the new identifier,
/// information and labels.
pub open spec fn advisory_upserted(old: Seq<AdvisoryRow>, new: Seq<AdvisoryRow>, row: AdvisoryRow) -> bool {
    if has_advisory(old, row.sha256@) {
        exists|i: int| 0 <= i < old.len() && (#[trigger] old[i]).sha256@ == row.sha256@
            && new == old.update(i, advisory_replaced(old[i], row))
    } else {
        new == old.push(row)
    }
}

/// The link table after upserting an edge: its fields replaced.
pub open spec fn link_upserted(old: Seq<LinkRow>, new: Seq<LinkRow>, row: LinkRow) -> bool {
    if has_link(old, row.sha256@, row.vulnerability@) {
        exists|i: int| 0 <= i < old.len() && (#[trigger] old[i]).sha256@ == row.sha256@
            && old[i].vulnerability@ == row.vulnerability@
            && new == old.update(i, LinkRow { sha256: old[i].sha256, vulnerability: old[i].vulnerability, info: row.info })
    } else {
        new == old.push(row)
    }
}

impl Graph {
    /// Each vulnerability, advisory and link once.
    pub open spec fn wf(&self) -> bool {
        &&& forall|i: int, j: int| 0 <= i < j < self.vulnerabilities@.len() ==>
            (#[trigger] self.vulnerabilities@[i]).identifier@ != (#[trigger] self.vulnerabilities@[j]).identifier@
        &&& forall|i: int, j: int| 0 <= i < j < self.advisories@.len() ==>
            (#[trigger] self.advisories@[i]).sha256@ != (#[trigger] self.advisories@[j]).sha256@
        &&& forall|i: int, j: int| 0 <= i < j < self.links@.len() ==>
            !((#[trigger] self.links@[i]).sha256@ == (#[trigger] self.links@[j]).sha256@
                && self.links@[i].vulnerability@ == self.links@[j].vulnerability@)
        &&& forall|i: int, j: int| 0 <= i < j < self.products@.len() ==>
            product_key(#[trigger] self.products@[i]) != product_key(#[trigger] self.products@[j])
        &&& forall|i: int, j: int| 0 <= i < j < self.product_versions@.len() ==>
            !((#[trigger] self.product_versions@[i]).product == (#[trigger] self.product_versions@[j]).product
                && self.product_versions@[i].version@ == self.product_versions@[j].version@)
    }

    pub fn new() -> (r: Graph)
        ensures
            r.wf(),
            r.vulnerabilities@.len() == 0,
            r.descriptions@.len() == 0,
            r.advisories@.len() == 0,
            r.links@.len() == 0,
            r.products@.len() == 0,
            r.product_versions@.len() == 0,
    {
        Graph {
            vulnerabilities: Vec::new(),
            descriptions: Vec::new(),
            advisories: Vec::new(),
            links: Vec::new(),
            products: Vec::new(),
            product_versions: Vec::new(),
        }
    }
}

fn clone_opt(o: &Option<String>) -> (r: Option<String>)
    ensures
        r == *o,
{
    match o {
        Some(s) => Some(s.clone()),
        None => None,
    }
}

fn clone_vulnerability(i: &VulnerabilityInformation) -> (r: VulnerabilityInformation)
    ensures
        r == *i,
{
    VulnerabilityInformation {
        title: clone_opt(&i.title),
        published: i.published,
        modified: i.modified,
        withdrawn: i.withdrawn,
        cwe: clone_opt(&i.cwe),
    }
}

fn clone_advisory(i: &AdvisoryInformation) -> (r: AdvisoryInformation)
    ensures
        r == *i,
{
    AdvisoryInformation {
        title: clone_opt(&i.title),
        issuer: clone_opt(&i.issuer),
        published: i.published,
        modified: i.modified,
        withdrawn: i.withdrawn,
    }
}

fn clone_link(i: &AdvisoryVulnerabilityInformation) -> (r: AdvisoryVulnerabilityInformation)
    ensures
        r == *i,
{
    AdvisoryVulnerabilityInformation {
        title: clone_opt(&i.title),
        summary: clone_opt(&i.summary),
        description: clone_opt(&i.description),
        discovery_date: i.discovery_date,
        release_date: i.release_date,
        cwe: clone_opt(&i.cwe),
    }
}

fn keep_exec<T>(old: Option<T>, new: Option<T>) -> (r: Option<T>)
    ensures
        r == keep(old, new),
{
    match new {
        Some(v) => Some(v),
        None => old,
    }
}

/// The description rows that a CVE ingest adds.
pub open spec fn description_rows(ingest: CveIngest) -> Seq<DescriptionRow> {
    ingest.descriptions@.map_values(|d: (String, String)| DescriptionRow {
        vulnerability: ingest.identifier,
        language: d.0,
        text: d.1,
    })
}

/// The advisory row that a CVE ingest writes.
pub open spec fn cve_advisory(ingest: CveIngest, digests: Digests, labels: Vec<(String, String)>, id: u128) -> AdvisoryRow {
    AdvisoryRow {
        id,
        sha256: digests.sha256,
        sha384: digests.sha384,
        sha512: digests.sha512,
        labels,
        identifier: ingest.identifier,
        info: ingest.advisory,
    }
}

/// What ingesting a CVE record whose document has the given digests does to
/// the tables; `id` is the id a new advisory gets.
pub open spec fn cve_applied(
    old: Graph,
    new: Graph,
    ingest: CveIngest,
    digests: Digests,
    labels: Vec<(String, String)>,
    id: u128,
) -> bool {
    &&& vulnerability_upserted(old.vulnerabilities@, new.vulnerabilities@, ingest.identifier, ingest.vulnerability)
    &&& new.descriptions@ == descriptions_added(old.descriptions@, description_rows(ingest))
    &&& advisory_upserted(old.advisories@, new.advisories@, cve_advisory(ingest, digests, labels, id))
    &&& link_upserted(old.links@, new.links@, LinkRow {
        sha256: digests.sha256,
        vulnerability: ingest.identifier,
        info: ingest.link,
    })
}

impl Graph {
    /// Inserts the vulnerability, or merges `info` into the one held: a
    /// present field is overwritten, a missing one clears nothing.
    pub fn ingest_vulnerability(&mut self, id: String, info: VulnerabilityInformation)
        requires
            old(self).wf(),
        ensures
            final(self).wf(),
            vulnerability_upserted(old(self).vulnerabilities@, final(self).vulnerabilities@, id, info),
            final(self).descriptions == old(self).descriptions,
            final(self).advisories == old(self).advisories,
            final(self).links == old(self).links,
            final(self).products == old(self).products,
            final(self).product_versions == old(self).product_versions,
    {
        let mut i: usize = 0;
        while i < self.vulnerabilities.len()
            invariant
                i <= self.vulnerabilities@.len(),
                *self == *old(self),
                old(self).wf(),
                forall|j: int| 0 <= j < i ==> (#[trigger] self.vulnerabilities@[j]).identifier@ != id@,
            decreases self.vulnerabilities@.len() - i,
        {
            if str_eq(self.vulnerabilities[i].identifier.as_str(), id.as_str()) {
                let ghost before = self.vulnerabilities@;
                let row = self.vulnerabilities.remove(i);
                let VulnerabilityRow { identifier, info: old_info } = row;
                let merged = VulnerabilityInformation {
                    title: keep_exec(old_info.title, info.title),
                    published: keep_exec(old_info.published, info.published),
                    modified: keep_exec(old_info.modified, info.modified),
                    withdrawn: keep_exec(old_info.withdrawn, info.withdrawn),
                    cwe: keep_exec(old_info.cwe, info.cwe),
                };
                let new_row = VulnerabilityRow { identifier, info: merged };
                self.vulnerabilities.insert(i, new_row);
                proof {
                    assert(self.vulnerabilities@ =~= before.update(i as int, new_row));
                    assert forall|a: int| 0 <= a < before.len() implies
                        (#[trigger] self.vulnerabilities@[a]).identifier == before[a].identifier by {
                    }
                    assert(before == old(self).vulnerabilities@);
                    assert forall|a: int, b: int| 0 <= a < b < self.vulnerabilities@.len() implies
                        (#[trigger] self.vulnerabilities@[a]).identifier@ != (#[trigger] self.vulnerabilities@[b]).identifier@ by {
                        assert(old(self).vulnerabilities@[a].identifier@ != old(self).vulnerabilities@[b].identifier@);
                    }
                    assert(has_vulnerability(before, id@));
                }
                return;
            }
            i = i + 1;
        }
        self.vulnerabilities.push(VulnerabilityRow { identifier: id, info });
    }

    /// Adds a description unless the same one is held.
    fn add_description(&mut self, row: DescriptionRow)
        ensures
            final(self).descriptions@ == if has_description(old(self).descriptions@, row) {
                old(self).descriptions@
            } else {
                old(self).descriptions@.push(row)
            },
            final(self).vulnerabilities == old(self).vulnerabilities,
            final(self).advisories == old(self).advisories,
            final(self).links == old(self).links,
            final(self).products == old(self).products,
            final(self).product_versions == old(self).product_versions,
    {
        let mut i: usize = 0;
        while i < self.descriptions.len()
            invariant
                i <= self.descriptions@.len(),
                *self == *old(self),
                forall|j: int| 0 <= j < i ==> !((#[trigger] self.descriptions@[j]).vulnerability@ == row.vulnerability@
                    && self.descriptions@[j].language@ == row.language@ && self.descriptions@[j].text@ == row.text@),
            decreases self.descriptions@.len() - i,
        {
            let d = &self.descriptions[i];
            if str_eq(d.vulnerability.as_str(), row.vulnerability.as_str()) && str_eq(d.language.as_str(), row.language.as_str())
                && str_eq(d.text.as_str(), row.text.as_str()) {
                return;
            }
            i = i + 1;
        }
        self.descriptions.push(row);
    }

    /// Inserts the advisory of that digest, or replaces the identifier,
    /// information and labels of the one held. Returns the advisory's id.
    pub fn ingest_advisory(&mut self, row: AdvisoryRow) -> (r: u128)
        requires
            old(self).wf(),
        ensures
            final(self).wf(),
            advisory_upserted(old(self).advisories@, final(self).advisories@, row),
            has_advisory(final(self).advisories@, row.sha256@),
            forall|k: int| 0 <= k < final(self).advisories@.len() && (#[trigger] final(self).advisories@[k]).sha256@ == row.sha256@
                ==> final(self).advisories@[k].id == r,
            final(self).vulnerabilities == old(self).vulnerabilities,
            final(self).descriptions == old(self).descriptions,
            final(self).links == old(self).links,
            final(self).products == old(self).products,
            final(self).product_versions == old(self).product_versions,
    {
        let mut i: usize = 0;
        while i < self.advisories.len()
            invariant
                i <= self.advisories@.len(),
                *self == *old(self),
                old(self).wf(),
                forall|j: int| 0 <= j < i ==> (#[trigger] self.advisories@[j]).sha256@ != row.sha256@,
            decreases self.advisories@.len() - i,
        {
            if str_eq(self.advisories[i].sha256.as_str(), row.sha256.as_str()) {
                let ghost before = self.advisories@;
                let held = self.advisories.remove(i);
                let AdvisoryRow { id, sha256, sha384, sha512, labels: _, identifier: _, info: _ } = held;
                let AdvisoryRow { id: _, sha256: _, sha384: _, sha512: _, labels, identifier, info } = row;
                let new_row = AdvisoryRow { id, sha256, sha384, sha512, labels, identifier, info };
                self.advisories.insert(i, new_row);
                proof {
                    assert(new_row == advisory_replaced(before[i as int], row));
                    assert(self.advisories@ =~= before.update(i as int, new_row));
                    assert forall|a: int| 0 <= a < before.len() implies
                        (#[trigger] self.advisories@[a]).sha256 == before[a].sha256 by {
                    }
                    assert(before == old(self).advisories@);
                    assert forall|a: int, b: int| 0 <= a < b < self.advisories@.len() implies
                        (#[trigger] self.advisories@[a]).sha256@ != (#[trigger] self.advisories@[b]).sha256@ by {
                        assert(old(self).advisories@[a].sha256@ != old(self).advisories@[b].sha256@);
                    }
                    assert(has_advisory(before, row.sha256@));
                    assert(self.advisories@[i as int].sha256 == before[i as int].sha256);
                    assert(self.advisories@[i as int].sha256@ == row.sha256@);
                    assert(has_advisory(self.advisories@, row.sha256@));
                    assert forall|k: int| 0 <= k < self.advisories@.len() && (#[trigger] self.advisories@[k]).sha256@ == row.sha256@
                        implies self.advisories@[k].id == id by {
                        if k != i {
                            if k < i {
                                assert(old(self).advisories@[k].sha256@ != old(self).advisories@[i as int].sha256@);
                            } else {
                                assert(old(self).advisories@[i as int].sha256@ != old(self).advisories@[k].sha256@);
                            }
                        }
                    }
                }
                return id;
            }
            i = i + 1;
        }
        let id = row.id;
        let ghost before = self.advisories@;
        self.advisories.push(row);
        proof {
            assert(self.advisories@[before.len() as int] == row);
            assert(has_advisory(self.advisories@, row.sha256@));
        }
        id
    }

    /// Inserts the edge, or replaces the fields of the one held.
    pub fn link_to_vulnerability(&mut self, row: LinkRow)
        requires
            old(self).wf(),
        ensures
            final(self).wf(),
            link_upserted(old(self).links@, final(self).links@, row),
            final(self).vulnerabilities == old(self).vulnerabilities,
            final(self).descriptions == old(self).descriptions,
            final(self).advisories == old(self).advisories,
            final(self).products == old(self).products,
            final(self).product_versions == old(self).product_versions,
    {
        let mut i: usize = 0;
        while i < self.links.len()
            invariant
                i <= self.links@.len(),
                *self == *old(self),
                old(self).wf(),
                forall|j: int| 0 <= j < i ==> !((#[trigger] self.links@[j]).sha256@ == row.sha256@
                    && self.links@[j].vulnerability@ == row.vulnerability@),
            decreases self.links@.len() - i,
        {
            if str_eq(self.links[i].sha256.as_str(), row.sha256.as_str())
                && str_eq(self.links[i].vulnerability.as_str(), row.vulnerability.as_str()) {
                let ghost before = self.links@;
                let held = self.links.remove(i);
                let LinkRow { sha256, vulnerability, info: _ } = held;
                let LinkRow { sha256: _, vulnerability: _, info } = row;
                let new_row = LinkRow { sha256, vulnerability, info };
                self.links.insert(i, new_row);
                proof {
                    assert(self.links@ =~= before.update(i as int, new_row));
                    assert forall|a: int| 0 <= a < before.len() implies
                        (#[trigger] self.links@[a]).sha256 == before[a].sha256
                        && self.links@[a].vulnerability == before[a].vulnerability by {
                    }
                    assert(before == old(self).links@);
                    assert forall|a: int, b: int| 0 <= a < b < self.links@.len() implies
                        !((#[trigger] self.links@[a]).sha256@ == (#[trigger] self.links@[b]).sha256@
                            && self.links@[a].vulnerability@ == self.links@[b].vulnerability@) by {
                        assert(!(old(self).links@[a].sha256@ == old(self).links@[b].sha256@
                            && old(self).links@[a].vulnerability@ == old(self).links@[b].vulnerability@));
                    }
                    assert(has_link(before, row.sha256@, row.vulnerability@));
                }
                return;
            }
            i = i + 1;
        }
        self.links.push(row);
    }

    /// Writes what a CVE record gives: its vulnerability and descriptions,
    /// its advisory under the document digests with the labels, and the edge
    /// between them. A new advisory gets `id`; the advisory's id and the
    /// record's identifier are returned.
    pub fn ingest_cve(
        &mut self,
        ingest: &CveIngest,
        digests: Digests,
        labels: Vec<(String, String)>,
        id: u128,
    ) -> (r: IngestResult)
        requires
            old(self).wf(),
        ensures
            final(self).wf(),
            cve_applied(*old(self), *final(self), *ingest, digests, labels, id),
            final(self).products == old(self).products,
            final(self).product_versions == old(self).product_versions,
            r.document_id@ == ingest.identifier@,
            has_advisory(final(self).advisories@, digests.sha256@),
            forall|k: int| 0 <= k < final(self).advisories@.len() && (#[trigger] final(self).advisories@[k]).sha256@ == digests.sha256@
                ==> final(self).advisories@[k].id == r.id,
    {
        let ghost g0 = *self;
        self.ingest_vulnerability(ingest.identifier.clone(), clone_vulnerability(&ingest.vulnerability));
        let ghost rows = description_rows(*ingest);
        let mut i: usize = 0;
        while i < ingest.descriptions.len()
            invariant
                i <= ingest.descriptions@.len(),
                rows == description_rows(*ingest),
                self.wf(),
                vulnerability_upserted(g0.vulnerabilities@, self.vulnerabilities@, ingest.identifier, ingest.vulnerability),
                self.descriptions@ == descriptions_added(g0.descriptions@, rows.subrange(0, i as int)),
                self.advisories == g0.advisories,
                self.links == g0.links,
                self.products == g0.products,
                self.product_versions == g0.product_versions,
            decreases ingest.descriptions@.len() - i,
        {
            let row = DescriptionRow {
                vulnerability: ingest.identifier.clone(),
                language: ingest.descriptions[i].0.clone(),
                text: ingest.descriptions[i].1.clone(),
            };
            proof {
                let pre = rows.subrange(0, i + 1);
                assert(pre.drop_last() =~= rows.subrange(0, i as int));
                assert(pre.last() == row);
            }
            self.add_description(row);
            i = i + 1;
        }
        proof {
            assert(rows.subrange(0, i as int) =~= rows);
        }
        let link_key = digests.sha256.clone();
        let Digests { sha256, sha384, sha512 } = digests;
        let advisory = self.ingest_advisory(AdvisoryRow {
            id,
            sha256,
            sha384,
            sha512,
            labels,
            identifier: ingest.identifier.clone(),
            info: clone_advisory(&ingest.advisory),
        });
        self.link_to_vulnerability(LinkRow {
            sha256: link_key,
            vulnerability: ingest.identifier.clone(),
            info: clone_link(&ingest.link),
        });
        IngestResult { id: advisory, document_id: ingest.identifier.clone() }
    }
}

proof fn lemma_vulnerability_idempotent(
    s0: Seq<VulnerabilityRow>,
    s1: Seq<VulnerabilityRow>,
    s2: Seq<VulnerabilityRow>,
    id: String,
    info: VulnerabilityInformation,
)
    requires
        forall|i: int, j: int| 0 <= i < j < s1.len() ==> (#[trigger] s1[i]).identifier@ != (#[trigger] s1[j]).identifier@,
        vulnerability_upserted(s0, s1, id, info),
        vulnerability_upserted(s1, s2, id, info),
    ensures
        s2 == s1,
{
    let i = if has_vulnerability(s0, id@) {
        choose|i: int| 0 <= i < s0.len() && (#[trigger] s0[i]).identifier@ == id@
            && s1 == s0.update(i, VulnerabilityRow { identifier: s0[i].identifier, info: merge_vulnerability(s0[i].info, info) })
    } else {
        s0.len() as int
    };
    assert(s1[i].identifier@ == id@);
    assert(has_vulnerability(s1, id@));
    let j = choose|j: int| 0 <= j < s1.len() && (#[trigger] s1[j]).identifier@ == id@
        && s2 == s1.update(j, VulnerabilityRow { identifier: s1[j].identifier, info: merge_vulnerability(s1[j].info, info) });
    if i != j {
        if i < j {
            assert(s1[i].identifier@ != s1[j].identifier@);
        } else {
            assert(s1[j].identifier@ != s1[i].identifier@);
        }
    }
    assert(merge_vulnerability(s1[j].info, info) == s1[j].info);
    assert(s2 =~= s1);
}

proof fn lemma_advisory_idempotent(s0: Seq<AdvisoryRow>, s1: Seq<AdvisoryRow>, s2: Seq<AdvisoryRow>, row: AdvisoryRow, again: AdvisoryRow)
    requires
        forall|i: int, j: int| 0 <= i < j < s1.len() ==> (#[trigger] s1[i]).sha256@ != (#[trigger] s1[j]).sha256@,
        advisory_upserted(s0, s1, row),
        advisory_upserted(s1, s2, again),
        again.sha256 == row.sha256,
        again.sha384 == row.sha384,
        again.sha512 == row.sha512,
        again.labels == row.labels,
        again.identifier == row.identifier,
        again.info == row.info,
    ensures
        s2 == s1,
{
    let i = if has_advisory(s0, row.sha256@) {
        choose|i: int| 0 <= i < s0.len() && (#[trigger] s0[i]).sha256@ == row.sha256@
            && s1 == s0.update(i, advisory_replaced(s0[i], row))
    } else {
        s0.len() as int
    };
    assert(s1[i].sha256@ == row.sha256@);
    assert(has_advisory(s1, row.sha256@));
    let j = choose|j: int| 0 <= j < s1.len() && (#[trigger] s1[j]).sha256@ == again.sha256@
        && s2 == s1.update(j, advisory_replaced(s1[j], again));
    if i != j {
        if i < j {
            assert(s1[i].sha256@ != s1[j].sha256@);
        } else {
            assert(s1[j].sha256@ != s1[i].sha256@);
        }
    }
    assert(advisory_replaced(s1[j], again) == s1[j]);
    assert(s2 =~= s1);
}

proof fn lemma_link_idempotent(s0: Seq<LinkRow>, s1: Seq<LinkRow>, s2: Seq<LinkRow>, row: LinkRow)
    requires
        forall|i: int, j: int| 0 <= i < j < s1.len() ==> !((#[trigger] s1[i]).sha256@ == (#[trigger] s1[j]).sha256@
            && s1[i].vulnerability@ == s1[j].vulnerability@),
        link_upserted(s0, s1, row),
        link_upserted(s1, s2, row),
    ensures
        s2 == s1,
{
    let i = if has_link(s0, row.sha256@, row.vulnerability@) {
        choose|i: int| 0 <= i < s0.len() && (#[trigger] s0[i]).sha256@ == row.sha256@
            && s0[i].vulnerability@ == row.vulnerability@
            && s1 == s0.update(i, LinkRow { sha256: s0[i].sha256, vulnerability: s0[i].vulnerability, info: row.info })
    } else {
        s0.len() as int
    };
    assert(s1[i].sha256@ == row.sha256@ && s1[i].vulnerability@ == row.vulnerability@);
    assert(has_link(s1, row.sha256@, row.vulnerability@));
    let j = choose|j: int| 0 <= j < s1.len() && (#[trigger] s1[j]).sha256@ == row.sha256@
        && s1[j].vulnerability@ == row.vulnerability@
        && s2 == s1.update(j, LinkRow { sha256: s1[j].sha256, vulnerability: s1[j].vulnerability, info: row.info });
    if i != j {
        if i < j {
            assert(!(s1[i].sha256@ == s1[j].sha256@ && s1[i].vulnerability@ == s1[j].vulnerability@));
        } else {
            assert(!(s1[j].sha256@ == s1[i].sha256@ && s1[j].vulnerability@ == s1[i].vulnerability@));
        }
    }
    assert(s2 =~= s1);
}

/// Every added row is held afterwards, and so is every row held before.
proof fn lemma_added_holds(old: Seq<DescriptionRow>, rows: Seq<DescriptionRow>)
    ensures
        forall|k: int| 0 <= k < rows.len() ==> has_description(descriptions_added(old, rows), #[trigger] rows[k]),
        forall|r: DescriptionRow| has_description(old, r) ==> #[trigger] has_description(descriptions_added(old, rows), r),
    decreases rows.len(),
{
    if rows.len() > 0 {
        let p = rows.drop_last();
        lemma_added_holds(old, p);
        let before = descriptions_added(old, p);
        let after = descriptions_added(old, rows);
        assert forall|r: DescriptionRow| has_description(before, r) implies #[trigger] has_description(after, r) by {
            let i = choose|i: int| 0 <= i < before.len() && (#[trigger] before[i]).vulnerability@ == r.vulnerability@
                && before[i].language@ == r.language@ && before[i].text@ == r.text@;
            assert(after[i] == before[i]);
        }
        assert forall|k: int| 0 <= k < rows.len() implies has_description(after, #[trigger] rows[k]) by {
            if k < rows.len() - 1 {
                assert(rows[k] == p[k]);
                assert(has_description(before, p[k]));
            } else if !has_description(before, rows.last()) {
                assert(after[before.len() as int] == rows.last());
            }
        }
        assert forall|r: DescriptionRow| has_description(old, r) implies #[trigger] has_description(after, r) by {
            assert(has_description(before, r));
        }
    }
}

/// Adding rows that are all held already changes nothing.
proof fn lemma_added_noop(held: Seq<DescriptionRow>, rows: Seq<DescriptionRow>)
    requires
        forall|k: int| 0 <= k < rows.len() ==> has_description(held, #[trigger] rows[k]),
    ensures
        descriptions_added(held, rows) == held,
    decreases rows.len(),
{
    if rows.len() > 0 {
        let p = rows.drop_last();
        assert forall|k: int| 0 <= k < p.len() implies has_description(held, #[trigger] p[k]) by {
            assert(p[k] == rows[k]);
        }
        lemma_added_noop(held, p);
        assert(has_description(held, rows[rows.len() - 1]));
    }
}

/// Ingesting the same CVE record with the same digests and labels a second
/// time leaves every table as the first ingest left it, whatever id a new
/// advisory would have had.
pub proof fn cve_ingest_idempotent(
    g0: Graph,
    g1: Graph,
    g2: Graph,
    ingest: CveIngest,
    digests: Digests,
    labels: Vec<(String, String)>,
    first_id: u128,
    second_id: u128,
)
    requires
        g1.wf(),
        cve_applied(g0, g1, ingest, digests, labels, first_id),
        cve_applied(g1, g2, ingest, digests, labels, second_id),
    ensures
        g2.vulnerabilities@ == g1.vulnerabilities@,
        g2.descriptions@ == g1.descriptions@,
        g2.advisories@ == g1.advisories@,
        g2.links@ == g1.links@,
{
    lemma_vulnerability_idempotent(g0.vulnerabilities@, g1.vulnerabilities@, g2.vulnerabilities@, ingest.identifier, ingest.vulnerability);
    lemma_advisory_idempotent(g0.advisories@, g1.advisories@, g2.advisories@,
        cve_advisory(ingest, digests, labels, first_id), cve_advisory(ingest, digests, labels, second_id));
    lemma_link_idempotent(g0.links@, g1.links@, g2.links@, LinkRow {
        sha256: digests.sha256,
        vulnerability: ingest.identifier,
        info: ingest.link,
    });
    let rows = description_rows(ingest);
    lemma_added_holds(g0.descriptions@, rows);
    lemma_added_noop(g1.descriptions@, rows);
}

fn opt_str_eq(a: &Option<String>, b: &Option<String>) -> (r: bool)
    ensures
        r == (opt_view(*a) == opt_view(*b)),
{
    match (a, b) {
        (Some(x), Some(y)) => str_eq(x.as_str(), y.as_str()),
        (None, None) => true,
        _ => false,
    }
}

impl Graph {
    /// Registers a product under its vendor and name, once; a new product
    /// gets `id`. Returns the product's id.
    pub fn ingest_product(&mut self, name: String, vendor: Option<String>, id: u128) -> (r: u128)
        requires
            old(self).wf(),
        ensures
            final(self).wf(),
            has_product(old(self).products@, opt_view(vendor), name@) ==> final(self).products@ == old(self).products@,
            !has_product(old(self).products@, opt_view(vendor), name@) ==> {
                &&& final(self).products@ == old(self).products@.push(ProductRow { id, vendor, name })
                &&& r == id
            },
            forall|k: int| 0 <= k < final(self).products@.len() && product_key(#[trigger] final(self).products@[k]) == (opt_view(vendor), name@)
                ==> final(self).products@[k].id == r,
            final(self).vulnerabilities == old(self).vulnerabilities,
            final(self).descriptions == old(self).descriptions,
            final(self).advisories == old(self).advisories,
            final(self).links == old(self).links,
            final(self).product_versions == old(self).product_versions,
    {
        let ghost key = (opt_view(vendor), name@);
        let mut i: usize = 0;
        while i < self.products.len()
            invariant
                i <= self.products@.len(),
                *self == *old(self),
                old(self).wf(),
                key == (opt_view(vendor), name@),
                forall|j: int| 0 <= j < i ==> product_key(#[trigger] self.products@[j]) != key,
            decreases self.products@.len() - i,
        {
            if str_eq(self.products[i].name.as_str(), name.as_str()) && opt_str_eq(&self.products[i].vendor, &vendor) {
                proof {
                    assert(product_key(self.products@[i as int]) == key);
                    assert forall|k: int| 0 <= k < self.products@.len() && product_key(#[trigger] self.products@[k]) == key
                        implies self.products@[k].id == self.products@[i as int].id by {
                        if k < i {
                            assert(product_key(old(self).products@[k]) != product_key(old(self).products@[i as int]));
                        } else if k > i {
                            assert(product_key(old(self).products@[i as int]) != product_key(old(self).products@[k]));
                        }
                    }
                }
                return self.products[i].id;
            }
            i = i + 1;
        }
        let ghost before = self.products@;
        self.products.push(ProductRow { id, vendor, name });
        proof {
            assert forall|a: int, b: int| 0 <= a < b < self.products@.len() implies
                product_key(#[trigger] self.products@[a]) != product_key(#[trigger] self.products@[b]) by {
                if b < before.len() {
                    assert(product_key(old(self).products@[a]) != product_key(old(self).products@[b]));
                } else {
                    assert(self.products@[a] == before[a]);
                }
            }
            assert forall|k: int| 0 <= k < self.products@.len() && product_key(#[trigger] self.products@[k]) == key
                implies self.products@[k].id == id by {
                if k < before.len() {
                    assert(self.products@[k] == before[k]);
                }
            }
        }
        id
    }

    /// Registers a version of a product, once; a version held already is
    /// left as it is.
    pub fn ingest_product_version(&mut self, product: u128, version: String, sbom_id: Option<u128>)
        requires
            old(self).wf(),
        ensures
            final(self).wf(),
            final(self).product_versions@ == if has_product_version(old(self).product_versions@, product, version@) {
                old(self).product_versions@
            } else {
                old(self).product_versions@.push(ProductVersionRow { product, version, sbom_id })
            },
            final(self).vulnerabilities == old(self).vulnerabilities,
            final(self).descriptions == old(self).descriptions,
            final(self).advisories == old(self).advisories,
            final(self).links == old(self).links,
            final(self).products == old(self).products,
    {
        let mut i: usize = 0;
        while i < self.product_versions.len()
            invariant
                i <= self.product_versions@.len(),
                *self == *old(self),
                old(self).wf(),
                forall|j: int| 0 <= j < i ==> !((#[trigger] self.product_versions@[j]).product == product
                    && self.product_versions@[j].version@ == version@),
            decreases self.product_versions@.len() - i,
        {
            if self.product_versions[i].product == product && str_eq(self.product_versions[i].version.as_str(), version.as_str()) {
                return;
            }
            i = i + 1;
        }
        let ghost before = self.product_versions@;
        self.product_versions.push(ProductVersionRow { product, version, sbom_id });
        proof {
            assert forall|a: int, b: int| 0 <= a < b < self.product_versions@.len() implies
                !((#[trigger] self.product_versions@[a]).product == (#[trigger] self.product_versions@[b]).product
                    && self.product_versions@[a].version@ == self.product_versions@[b].version@) by {
                if b < before.len() {
                    assert(!(old(self).product_versions@[a].product == old(self).product_versions@[b].product
                        && old(self).product_versions@[a].version@ == old(self).product_versions@[b].version@));
                } else {
                    assert(self.product_versions@[a] == before[a]);
                }
            }
        }
    }
}

/// After a product is registered it is held; by the contract of
/// `ingest_product`, registering it again then changes nothing and returns
/// the same id.
pub proof fn registered_product_is_held(
    p0: Seq<ProductRow>,
    p1: Seq<ProductRow>,
    vendor: Option<String>,
    name: String,
    first_id: u128,
    second_id: u128,
)
    requires
        has_product(p0, opt_view(vendor), name@) ==> p1 == p0,
        !has_product(p0, opt_view(vendor), name@) ==> p1 == p0.push(ProductRow { id: first_id, vendor, name }),
    ensures
        has_product(p1, opt_view(vendor), name@),
{
    if !has_product(p0, opt_view(vendor), name@) {
        assert(product_key(p1[p0.len() as int]) == (opt_view(vendor), name@));
    }
}

} // verus!
