use font_catalog::catalog::{
    catalog_from_listing, dedup_families, make_records, sort_families, FontInfo,
};
use font_catalog::locate::LocateOutcome;
use font_catalog::provider::get_system_fonts;

fn names(v: &[&str]) -> Vec<String> {
    v.iter().map(|s| s.to_string()).collect()
}

#[test]
fn dedup_keeps_first_occurrences_in_order() {
    let r = dedup_families(names(&["a", "b", "a", "c", "b"]));
    assert_eq!(r, names(&["a", "b", "c"]));
}

#[test]
fn dedup_is_case_sensitive() {
    let r = dedup_families(names(&["Arial", "arial", "Arial"]));
    assert_eq!(r, names(&["Arial", "arial"]));
}

#[test]
fn sort_is_ordinal_ascending() {
    let r = sort_families(names(&["b", "a", "B", "A"]));
    assert_eq!(r, names(&["A", "B", "a", "b"]));
}

#[test]
fn make_records_fills_every_field() {
    let r = make_records(&names(&["Times New Roman Bold"]));
    assert_eq!(r.len(), 1);
    assert_eq!(r[0].name, "Times New Roman Bold");
    assert_eq!(r[0].family, "Times New Roman Bold");
    assert_eq!(r[0].style, "normal");
    assert_eq!(r[0].weight, "bold");
    assert_eq!(r[0].font_type, "serif");
}

#[test]
fn catalog_drops_duplicates_and_sorts() {
    let listing = names(&["Zeta", "Alpha", "Zeta", "Alpha"]);
    let flags = vec![true, true, true, true];
    let c = catalog_from_listing(Ok(listing), flags).unwrap();
    let got: Vec<&str> = c.iter().map(|r| r.name.as_str()).collect();
    assert_eq!(got, vec!["Alpha", "Zeta"]);
    for r in &c {
        assert_eq!(r.style, "normal");
        assert_eq!(r.name, r.family);
    }
}

#[test]
fn catalog_skips_unresolved_families() {
    let listing = names(&["Arial", "BadFont", "Courier New"]);
    let flags = vec![true, false, true];
    let c = catalog_from_listing(Ok(listing), flags).unwrap();
    let got: Vec<&str> = c.iter().map(|r| r.name.as_str()).collect();
    assert_eq!(got, vec!["Arial", "Courier New"]);
}

#[test]
fn catalog_skip_applies_to_first_occurrence_only() {
    // a later duplicate never resurrects a family whose first occurrence
    // failed to resolve
    let listing = names(&["BadFont", "BadFont"]);
    let flags = vec![false, true];
    let c = catalog_from_listing(Ok(listing), flags).unwrap();
    assert!(c.is_empty());
}

#[test]
fn catalog_of_empty_listing_is_empty() {
    let c = catalog_from_listing(Ok(Vec::new()), Vec::new()).unwrap();
    assert!(c.is_empty());
}

#[test]
fn listing_failure_fails_the_whole_call() {
    let r = catalog_from_listing(Err("no font system".to_string()), Vec::new());
    assert_eq!(
        r.unwrap_err(),
        "Failed to get font families: no font system"
    );
}

#[test]
fn record_for_times_new_roman_bold() {
    let listing = names(&["Times New Roman Bold"]);
    let c = catalog_from_listing(Ok(listing), vec![true]).unwrap();
    let want = FontInfo {
        name: "Times New Roman Bold".to_string(),
        family: "Times New Roman Bold".to_string(),
        style: "normal".to_string(),
        weight: "bold".to_string(),
        font_type: "serif".to_string(),
    };
    assert_eq!(c, vec![want]);
}

#[test]
fn record_for_consolas_light() {
    // "Consolas" holds none of the monospace keywords, so the keyword
    // rules put it in the default category
    let c = catalog_from_listing(Ok(names(&["Consolas Light"])), vec![true]).unwrap();
    assert_eq!(c[0].weight, "light");
    assert_eq!(c[0].font_type, "sans-serif");
}

#[test]
fn system_catalog_is_sorted_and_unique() {
    // the host's listing is whatever it is; the shape of a returned
    // catalog is guaranteed regardless
    match get_system_fonts() {
        Ok(c) => {
            for w in c.windows(2) {
                assert!(w[0].name.as_bytes() < w[1].name.as_bytes());
            }
            for r in &c {
                assert_eq!(r.style, "normal");
                assert_eq!(r.name, r.family);
            }
        }
        Err(e) => {
            assert!(e.starts_with("Failed to get font families: "));
        }
    }
}

#[test]
fn locate_outcomes_classify_success() {
    assert!(LocateOutcome::Revealed("/tmp/a.ttf".to_string()).is_success());
    assert!(LocateOutcome::OpenedFallback("/tmp".to_string()).is_success());
    assert!(!LocateOutcome::Failed("could not start".to_string()).is_success());
}
