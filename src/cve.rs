//! Reading of CVE records into a vulnerability, its advisory and the
//! edge between them.

use vstd::prelude::*;
use crate::text::str_eq;

verus! {

/// A text in a language.
pub struct Description {
    pub language: String,
    pub value: String,
}

pub struct ProblemTypeDescription {
    pub cwe_id: Option<String>,
}

pub struct ProblemType {
    pub descriptions: Vec<ProblemTypeDescription>,
}

/// The part of a record that its state decides. Times are seconds since
/// the Unix epoch.
pub enum CveState {
    Published {
        title: Option<String>,
        date_assigned: Option<i64>,
        descriptions: Vec<Description>,
        problem_types: Vec<ProblemType>,
    },
    Rejected {
        date_rejected: Option<i64>,
        rejected_reasons: Vec<Description>,
    },
}

/// A CVE record, as far as ingestion reads it.
pub struct Cve {
    pub id: String,
    pub date_published: Option<i64>,
    pub date_updated: Option<i64>,
    pub state: CveState,
}

pub struct VulnerabilityInformation {
    pub title: Option<String>,
    pub published: Option<i64>,
    pub modified: Option<i64>,
    pub withdrawn: Option<i64>,
    pub cwe: Option<String>,
}

pub struct AdvisoryInformation {
    pub title: Option<String>,
    pub issuer: Option<String>,
    pub published: Option<i64>,
    pub modified: Option<i64>,
    pub withdrawn: Option<i64>,
}

/// What an advisory says of one vulnerability.
pub struct AdvisoryVulnerabilityInformation {
    pub title: Option<String>,
    pub summary: Option<String>,
    pub description: Option<String>,
    pub discovery_date: Option<i64>,
    pub release_date: Option<i64>,
    pub cwe: Option<String>,
}

/// What ingesting a CVE record writes: the vulnerability with its
/// descriptions, the advisory, and the edge that links them, all under the
/// record's identifier.
pub struct CveIngest {
    pub identifier: String,
    pub vulnerability: VulnerabilityInformation,
    pub descriptions: Vec<(String, String)>,
    pub advisory: AdvisoryInformation,
    pub link: AdvisoryVulnerabilityInformation,
}

pub open spec fn opt_view(o: Option<String>) -> Option<Seq<char>> {
    match o {
        Some(s) => Some(s@),
        None => None,
    }
}

/// The first CWE identifier among descriptions.
pub open spec fn first_cwe_in(ds: Seq<ProblemTypeDescription>) -> Option<Seq<char>>
    decreases ds.len(),
{
    if ds.len() == 0 {
        None
    } else if ds[0].cwe_id is Some {
        opt_view(ds[0].cwe_id)
    } else {
        first_cwe_in(ds.drop_first())
    }
}

/// The first CWE identifier across all problem types, in order.
pub open spec fn first_cwe(pts: Seq<ProblemType>) -> Option<Seq<char>>
    decreases pts.len(),
{
    if pts.len() == 0 {
        None
    } else if first_cwe_in(pts[0].descriptions@) is Some {
        first_cwe_in(pts[0].descriptions@)
    } else {
        first_cwe(pts.drop_first())
    }
}

/// The last English description.
pub open spec fn english(ds: Seq<Description>) -> Option<Seq<char>>
    decreases ds.len(),
{
    if ds.len() == 0 {
        None
    } else if ds.last().language@ == "en"@ {
        Some(ds.last().value@)
    } else {
        english(ds.drop_last())
    }
}

pub open spec fn spec_title(cve: &Cve) -> Option<Seq<char>> {
    match cve.state {
        CveState::Published { title, .. } => opt_view(title),
        CveState::Rejected { .. } => None,
    }
}

pub open spec fn spec_assigned(cve: &Cve) -> Option<i64> {
    match cve.state {
        CveState::Published { date_assigned, .. } => date_assigned,
        CveState::Rejected { .. } => None,
    }
}

pub open spec fn spec_withdrawn(cve: &Cve) -> Option<i64> {
    match cve.state {
        CveState::Published { .. } => None,
        CveState::Rejected { date_rejected, .. } => date_rejected,
    }
}

/// The descriptions of a published record, the reasons of a rejected one.
pub open spec fn spec_descriptions(cve: &Cve) -> Seq<Description> {
    match cve.state {
        CveState::Published { descriptions, .. } => descriptions@,
        CveState::Rejected { rejected_reasons, .. } => rejected_reasons@,
    }
}

pub open spec fn spec_cwe(cve: &Cve) -> Option<Seq<char>> {
    match cve.state {
        CveState::Published { problem_types, .. } => first_cwe(problem_types@),
        CveState::Rejected { .. } => None,
    }
}

pub open spec fn issuer() -> Seq<char> {
    "CVE® (MITRE Corporation"@
}

fn clone_opt(o: &Option<String>) -> (r: Option<String>)
    ensures
        opt_view(r) == opt_view(*o),
{
    match o {
        Some(s) => Some(s.clone()),
        None => None,
    }
}

fn find_cwe_in(ds: &Vec<ProblemTypeDescription>) -> (r: Option<String>)
    ensures
        opt_view(r) == first_cwe_in(ds@),
{
    let mut i: usize = 0;
    proof {
        assert(ds@.subrange(0, ds@.len() as int) =~= ds@);
    }
    while i < ds.len()
        invariant
            i <= ds@.len(),
            first_cwe_in(ds@) == first_cwe_in(ds@.subrange(i as int, ds@.len() as int)),
        decreases ds@.len() - i,
    {
        proof {
            let s = ds@.subrange(i as int, ds@.len() as int);
            assert(s[0] == ds@[i as int]);
            assert(s.drop_first() =~= ds@.subrange(i + 1, ds@.len() as int));
        }
        if ds[i].cwe_id.is_some() {
            return clone_opt(&ds[i].cwe_id);
        }
        i = i + 1;
    }
    None
}

fn find_cwe(pts: &Vec<ProblemType>) -> (r: Option<String>)
    ensures
        opt_view(r) == first_cwe(pts@),
{
    let mut i: usize = 0;
    proof {
        assert(pts@.subrange(0, pts@.len() as int) =~= pts@);
    }
    while i < pts.len()
        invariant
            i <= pts@.len(),
            first_cwe(pts@) == first_cwe(pts@.subrange(i as int, pts@.len() as int)),
        decreases pts@.len() - i,
    {
        proof {
            let s = pts@.subrange(i as int, pts@.len() as int);
            assert(s[0] == pts@[i as int]);
            assert(s.drop_first() =~= pts@.subrange(i + 1, pts@.len() as int));
        }
        let found = find_cwe_in(&pts[i].descriptions);
        if found.is_some() {
            return found;
        }
        i = i + 1;
    }
    None
}

/// Loader of CVE records into the knowledge base: it makes sure that the
/// vulnerability of the record exists, and the record's advisory with it.
pub struct CveLoader {}

impl CveLoader {
    pub fn new() -> (r: CveLoader) {
        CveLoader {}
    }

    /// What a record writes. A published record gives its title, its
    /// assignment date as the discovery date, its first CWE identifier and
    /// its descriptions; a rejected one is withdrawn at its rejection date
    /// and gives the reasons of the rejection as descriptions. The last
    /// English description describes the edge.
    pub fn load(&self, cve: &Cve) -> (r: CveIngest)
        ensures
            r.identifier@ == cve.id@,
            opt_view(r.vulnerability.title) == spec_title(cve),
            r.vulnerability.published == cve.date_published,
            r.vulnerability.modified == cve.date_updated,
            r.vulnerability.withdrawn == spec_withdrawn(cve),
            opt_view(r.vulnerability.cwe) == spec_cwe(cve),
            r.descriptions@.map_values(|d: (String, String)| (d.0@, d.1@))
                == spec_descriptions(cve).map_values(|d: Description| (d.language@, d.value@)),
            opt_view(r.advisory.title) == spec_title(cve),
            opt_view(r.advisory.issuer) == Some(issuer()),
            r.advisory.published == cve.date_published,
            r.advisory.modified == cve.date_updated,
            r.advisory.withdrawn == spec_withdrawn(cve),
            opt_view(r.link.title) == spec_title(cve),
            r.link.summary is None,
            opt_view(r.link.description) == english(spec_descriptions(cve)),
            r.link.discovery_date == spec_assigned(cve),
            r.link.release_date == cve.date_published,
            opt_view(r.link.cwe) == spec_cwe(cve),
    {
        let (title, assigned, withdrawn, descriptions, cwe) = match &cve.state {
            CveState::Rejected { date_rejected, rejected_reasons } => (None, None, *date_rejected, rejected_reasons, None),
            CveState::Published { title, date_assigned, descriptions, problem_types } => (
                clone_opt(title),
                *date_assigned,
                None,
                descriptions,
                find_cwe(problem_types),
            ),
        };
        let mut texts: Vec<(String, String)> = Vec::new();
        let mut english_description: Option<String> = None;
        let mut i: usize = 0;
        while i < descriptions.len()
            invariant
                i <= descriptions@.len(),
                descriptions@ == spec_descriptions(cve),
                texts@.map_values(|d: (String, String)| (d.0@, d.1@))
                    == descriptions@.subrange(0, i as int).map_values(|d: Description| (d.language@, d.value@)),
                opt_view(english_description) == english(descriptions@.subrange(0, i as int)),
            decreases descriptions@.len() - i,
        {
            let d = &descriptions[i];
            let ghost before = texts@;
            let language = d.language.clone();
            let value = d.value.clone();
            texts.push((language, value));
            proof {
                assert(texts@ == before.push((language, value)));
                assert(texts@.map_values(|d: (String, String)| (d.0@, d.1@))
                    =~= before.map_values(|d: (String, String)| (d.0@, d.1@)).push((d.language@, d.value@)));
                let pre = descriptions@.subrange(0, i + 1);
                assert(pre.drop_last() =~= descriptions@.subrange(0, i as int));
                assert(pre.last() == descriptions@[i as int]);
                assert(texts@.map_values(|d: (String, String)| (d.0@, d.1@))
                    =~= descriptions@.subrange(0, i + 1).map_values(|d: Description| (d.language@, d.value@)));
            }
            if str_eq(d.language.as_str(), "en") {
                english_description = Some(d.value.clone());
            }
            i = i + 1;
        }
        proof {
            assert(descriptions@.subrange(0, i as int) =~= descriptions@);
        }
        let vulnerability = VulnerabilityInformation {
            title: clone_opt(&title),
            published: cve.date_published,
            modified: cve.date_updated,
            withdrawn,
            cwe: clone_opt(&cwe),
        };
        let advisory = AdvisoryInformation {
            title: clone_opt(&title),
            issuer: Some("CVE® (MITRE Corporation".to_string()),
            published: cve.date_published,
            modified: cve.date_updated,
            withdrawn,
        };
        let link = AdvisoryVulnerabilityInformation {
            title,
            summary: None,
            description: english_description,
            discovery_date: assigned,
            release_date: cve.date_published,
            cwe,
        };
        CveIngest { identifier: cve.id.clone(), vulnerability, descriptions: texts, advisory, link }
    }
}

} // verus!
