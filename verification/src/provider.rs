//! The host's font source: an opaque, fallible provider of family names.
//! The calls into `font_kit` stand behind trusted wrappers that promise
//! nothing about what the host returns; everything computed from their
//! results is verified in `catalog`.

use vstd::prelude::*;
use crate::catalog::{
    catalog_from_listing, catalog_ok, dedup_families, lemma_dedup_contains, views_of, FontInfo,
};
use font_kit::source::SystemSource;

verus! {

#[verifier::external_type_specification]
#[verifier::external_body]
pub struct ExSystemSource(SystemSource);

/// Relies on `font_kit::source::SystemSource::new`: a handle to the
/// fonts installed on the host.
#[verifier::external_body]
fn system_source() -> SystemSource {
    SystemSource::new()
}

/// The name holds no NUL character, so it can pass through the C string
/// interfaces of the platform font backends.
pub open spec fn nul_free(s: Seq<char>) -> bool {
    forall|i: int| 0 <= i < s.len() ==> (#[trigger] s[i]) as u32 != 0
}

/// Relies on `font_kit::source::SystemSource::all_families`: the family
/// names the host reports, or the cause of the failure to list them.
/// Which names come back depends on the host, so nothing is promised of
/// their content beyond this: each name was read back from a C string of
/// the platform backend, so it holds no interior NUL character.
#[verifier::external_body]
fn all_families_of(source: &SystemSource) -> (r: Result<Vec<String>, String>)
    ensures
        r matches Ok(fams) ==> forall|k: int|
            0 <= k < fams@.len() ==> nul_free((#[trigger] fams@[k])@),
{
    match source.all_families() {
        Ok(families) => Ok(families),
        Err(e) => Err(e.to_string()),
    }
}

/// Relies on `font_kit::source::SystemSource::select_family_by_name`:
/// whether the family resolves to a handle on the host. The outcome
/// depends on the host, so nothing is promised of it. The backends build
/// a C string from the name, which panics on an interior NUL, so the
/// precondition keeps such names out; a host pattern lacking the file
/// or index property would also make the fontconfig backend panic,
/// which nothing here can rule out.
#[verifier::external_body]
fn family_resolves(source: &SystemSource, family_name: &str) -> bool
    requires
        nul_free(family_name@),
{
    match source.select_family_by_name(family_name) {
        Ok(_) => true,
        Err(_) => false,
    }
}

/// Enumerate the host's font families and build the catalog: list the
/// families, drop repeated names, silently skip the families that do not
/// resolve, classify the rest and sort. Only a failure of the initial
/// listing fails the whole call; whatever the host answered, a returned
/// catalog is deduplicated, well formed and sorted.
pub fn get_system_fonts() -> (r: Result<Vec<FontInfo>, String>)
    ensures
        r matches Ok(c) ==> catalog_ok(c@),
        r matches Err(m) ==> exists|c: Seq<char>| m@ == "Failed to get font families: "@ + c,
{
    let source = system_source();
    match all_families_of(&source) {
        Err(cause) => {
            let ghost cv = cause@;
            let out = catalog_from_listing(Err(cause), Vec::new());
            proof {
                assert(out matches Err(m) ==> m@ == "Failed to get font families: "@ + cv);
            }
            out
        },
        Ok(families) => {
            let deduped = dedup_families(families);
            proof {
                assert forall|t: int| 0 <= t < deduped@.len() implies nul_free(
                    (#[trigger] deduped@[t])@,
                ) by {
                    let dv = views_of(deduped@);
                    assert(dv[t] == deduped@[t]@);
                    assert(dv.contains(dv[t]));
                    lemma_dedup_contains(views_of(families@), dv[t]);
                    let k = choose|k: int|
                        0 <= k < views_of(families@).len() && views_of(families@)[k] == dv[t];
                    assert(views_of(families@)[k] == families@[k]@);
                    assert(nul_free(families@[k]@));
                }
            }
            let mut flags: Vec<bool> = Vec::new();
            let mut i: usize = 0;
            while i < deduped.len()
                invariant
                    i <= deduped@.len(),
                    flags@.len() == i,
                    forall|t: int| 0 <= t < deduped@.len() ==> nul_free((#[trigger] deduped@[t])@),
                decreases deduped@.len() - i,
            {
                flags.push(family_resolves(&source, deduped[i].as_str()));
                i = i + 1;
            }
            catalog_from_listing(Ok(deduped), flags)
        },
    }
}

} // verus!
