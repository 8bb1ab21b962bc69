//! Name-based font classification: a visual category and an approximate
//! weight label, each derived from the family name alone by lower-casing
//! it and testing substring containment against ordered keyword groups,
//! first match wins.

use vstd::prelude::*;

verus! {

/// What `str::to_lowercase` returns for a given character sequence: a
/// function of the characters alone (Unicode lowercase mapping).
pub uninterp spec fn lower_of(s: Seq<char>) -> Seq<char>;

/// `pat` occurs as a contiguous run of characters inside `text`.
pub open spec fn contains_sub(text: Seq<char>, pat: Seq<char>) -> bool {
    exists|k: int|
        0 <= k && k + pat.len() <= text.len() && #[trigger] text.subrange(k, k + pat.len()) == pat
}

/// Relies on `str::to_lowercase`: returns the lowercase equivalent of the
/// string, determined by its characters alone.
#[verifier::external_body]
fn lowercase(s: &str) -> (r: String)
    ensures
        r@ == lower_of(s@),
{
    s.to_lowercase()
}

/// Relies on `str::contains`: true exactly when the pattern matches a
/// sub-slice of the string.
#[verifier::external_body]
fn has_sub(text: &str, pat: &str) -> (r: bool)
    ensures
        r == contains_sub(text@, pat@),
{
    text.contains(pat)
}

/// The visual category derived from an already lower-cased name: the label
/// of the first keyword group with a matching substring, `sans-serif` when
/// none matches.
pub open spec fn category_of(l: Seq<char>) -> Seq<char> {
    if contains_sub(l, "mono"@) || contains_sub(l, "courier"@) || contains_sub(l, "console"@)
        || contains_sub(l, "code"@) {
        "monospace"@
    } else if contains_sub(l, "script"@) || contains_sub(l, "brush"@) || contains_sub(
        l,
        "handwriting"@,
    ) || contains_sub(l, "cursive"@) {
        "cursive"@
    } else if contains_sub(l, "times"@) || contains_sub(l, "georgia"@) || contains_sub(
        l,
        "garamond"@,
    ) || contains_sub(l, "serif"@) {
        "serif"@
    } else if contains_sub(l, "fantasy"@) || contains_sub(l, "impact"@) || contains_sub(
        l,
        "papyrus"@,
    ) || contains_sub(l, "decorative"@) {
        "fantasy"@
    } else {
        "sans-serif"@
    }
}

/// The weight label derived from an already lower-cased name, tested in a
/// fixed order, first match wins; the `light` rule excludes the thin
/// variants that also contain the substring `light`.
pub open spec fn weight_of(l: Seq<char>) -> Seq<char> {
    if contains_sub(l, "thin"@) || contains_sub(l, "hairline"@) || contains_sub(l, "ultralight"@)
        || contains_sub(l, "extra light"@) {
        "thin"@
    } else if contains_sub(l, "light"@) && !contains_sub(l, "ultralight"@) && !contains_sub(
        l,
        "extra light"@,
    ) {
        "light"@
    } else if contains_sub(l, "medium"@) {
        "medium"@
    } else if contains_sub(l, "semibold"@) || contains_sub(l, "semi bold"@) || contains_sub(
        l,
        "demi"@,
    ) {
        "semibold"@
    } else if contains_sub(l, "extrabold"@) || contains_sub(l, "extra bold"@) || contains_sub(
        l,
        "ultra bold"@,
    ) {
        "extrabold"@
    } else if contains_sub(l, "black"@) || contains_sub(l, "heavy"@) {
        "black"@
    } else if contains_sub(l, "bold"@) {
        "bold"@
    } else {
        "regular"@
    }
}

/// The closed set of category labels.
pub open spec fn is_category_label(s: Seq<char>) -> bool {
    ||| s == "monospace"@
    ||| s == "cursive"@
    ||| s == "serif"@
    ||| s == "fantasy"@
    ||| s == "sans-serif"@
}

/// The closed set of weight labels.
pub open spec fn is_weight_label(s: Seq<char>) -> bool {
    ||| s == "thin"@
    ||| s == "light"@
    ||| s == "medium"@
    ||| s == "semibold"@
    ||| s == "extrabold"@
    ||| s == "black"@
    ||| s == "bold"@
    ||| s == "regular"@
}

/// Totality of classification: every name, of any length and casing, gets
/// one of the five category labels.
pub proof fn lemma_category_total(l: Seq<char>)
    ensures
        is_category_label(category_of(l)),
{
}

/// Totality of weight detection: every name gets one of the eight weight
/// labels.
pub proof fn lemma_weight_total(l: Seq<char>)
    ensures
        is_weight_label(weight_of(l)),
{
}

/// Classification and weight detection are pure: equal names yield equal
/// labels, however often they are computed.
pub proof fn lemma_labels_deterministic(a: Seq<char>, b: Seq<char>)
    requires
        a == b,
    ensures
        category_of(lower_of(a)) == category_of(lower_of(b)),
        weight_of(lower_of(a)) == weight_of(lower_of(b)),
{
}

/// Visual category of a font family name: lower-case it, then return the
/// label of the first keyword group with a matching substring, or
/// `sans-serif` when none matches.
pub fn classify_font(family_name: &str) -> (r: String)
    ensures
        r@ == category_of(lower_of(family_name@)),
        is_category_label(r@),
{
    let lower = lowercase(family_name);
    let l = lower.as_str();
    if has_sub(l, "mono") || has_sub(l, "courier") || has_sub(l, "console") || has_sub(l, "code") {
        "monospace".to_owned()
    } else if has_sub(l, "script") || has_sub(l, "brush") || has_sub(l, "handwriting") || has_sub(
        l,
        "cursive",
    ) {
        "cursive".to_owned()
    } else if has_sub(l, "times") || has_sub(l, "georgia") || has_sub(l, "garamond") || has_sub(
        l,
        "serif",
    ) {
        "serif".to_owned()
    } else if has_sub(l, "fantasy") || has_sub(l, "impact") || has_sub(l, "papyrus") || has_sub(
        l,
        "decorative",
    ) {
        "fantasy".to_owned()
    } else {
        "sans-serif".to_owned()
    }
}

/// Approximate weight of a font family name: lower-case it, then test the
/// weight rules in their fixed order, first match wins, `regular` when
/// none matches.
pub fn detect_font_weight(family_name: &str) -> (r: String)
    ensures
        r@ == weight_of(lower_of(family_name@)),
        is_weight_label(r@),
{
    let lower = lowercase(family_name);
    let l = lower.as_str();
    if has_sub(l, "thin") || has_sub(l, "hairline") || has_sub(l, "ultralight") || has_sub(
        l,
        "extra light",
    ) {
        "thin".to_owned()
    } else if has_sub(l, "light") && !has_sub(l, "ultralight") && !has_sub(l, "extra light") {
        "light".to_owned()
    } else if has_sub(l, "medium") {
        "medium".to_owned()
    } else if has_sub(l, "semibold") || has_sub(l, "semi bold") || has_sub(l, "demi") {
        "semibold".to_owned()
    } else if has_sub(l, "extrabold") || has_sub(l, "extra bold") || has_sub(l, "ultra bold") {
        "extrabold".to_owned()
    } else if has_sub(l, "black") || has_sub(l, "heavy") {
        "black".to_owned()
    } else if has_sub(l, "bold") {
        "bold".to_owned()
    } else {
        "regular".to_owned()
    }
}

} // verus!
