//! CPE names and the identifiers derived from them.

use vstd::prelude::*;
use crate::purl::{bytes_of, new_v5, uuid_v5, NAMESPACE};

verus! {

/// The canonical URI form of a CPE name as `cpe` gives it, or nothing where
/// it refuses the text.
pub uninterp spec fn cpe_canonical(s: Seq<char>) -> Option<Seq<char>>;

/// Relies on `cpe::uri::Uri::parse` and the `Display` of the parsed URI
/// (every attribute written, `*` for any): both depend on the text alone.
#[verifier::external_body]
fn parse_cpe(s: &str) -> (r: Option<String>)
    ensures
        match r {
            Some(c) => cpe_canonical(s@) == Some(c@),
            None => cpe_canonical(s@) is None,
        },
{
    cpe::uri::Uri::parse(s).ok().map(|uri| uri.to_string())
}

/// The identifier of a CPE: the name-based UUID of its canonical form.
pub open spec fn spec_cpe_uuid(canonical: Seq<char>) -> u128 {
    uuid_v5(NAMESPACE, bytes_of(canonical))
}

/// A CPE name in canonical form, with its identifier.
pub struct Cpe {
    pub id: u128,
    pub canonical: String,
}

impl Cpe {
    /// Parses a CPE URI; `None` where it is not one.
    pub fn from_str(s: &str) -> (r: Option<Cpe>)
        ensures
            match cpe_canonical(s@) {
                Some(c) => r is Some && r->Some_0.canonical@ == c && r->Some_0.id == spec_cpe_uuid(c),
                None => r is None,
            },
    {
        match parse_cpe(s) {
            Some(canonical) => {
                let id = new_v5(NAMESPACE, canonical.as_str().as_bytes());
                Some(Cpe { id, canonical })
            },
            None => None,
        }
    }
}

} // verus!
