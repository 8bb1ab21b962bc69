//! The catalog: one record per distinct family name, classified by name,
//! sorted by name in ordinal order.

use vstd::prelude::*;
use crate::classify::{category_of, classify_font, detect_font_weight, lower_of, weight_of};
use crate::order::{lemma_lex_le_total, lemma_lex_le_trans, lex_le, str_le};
use vstd::seq_lib::group_to_multiset_ensures;
use vstd::string::StringExecFns;
use vstd::utf8::encode_utf8;

verus! {

broadcast use group_to_multiset_ensures;

/// One catalog entry: a family's display name and the classification
/// derived from it. The display name equals the family name, and the
/// style is the fixed constant `normal`.
#[derive(Debug, Clone, PartialEq, Eq)]
pub struct FontInfo {
    pub name: String,
    pub family: String,
    pub style: String,
    pub weight: String,
    pub font_type: String,
}

/// A well-formed record: name and family agree, the style is `normal`,
/// and category and weight are the ones derived from the name.
pub open spec fn record_ok(r: FontInfo) -> bool {
    &&& r.family@ == r.name@
    &&& r.style@ == "normal"@
    &&& r.font_type@ == category_of(lower_of(r.name@))
    &&& r.weight@ == weight_of(lower_of(r.name@))
}

/// The character sequences of a sequence of strings.
pub open spec fn views_of(v: Seq<String>) -> Seq<Seq<char>> {
    v.map_values(|s: String| s@)
}

/// The names of a sequence of records, as character sequences.
pub open spec fn names_of(c: Seq<FontInfo>) -> Seq<Seq<char>> {
    c.map_values(|r: FontInfo| r.name@)
}

/// Ascending ordinal (byte-wise) order of a sequence of names.
pub open spec fn sorted_names(s: Seq<Seq<char>>) -> bool {
    forall|i: int, j: int|
        0 <= i < j < s.len() ==> lex_le(
            encode_utf8(#[trigger] s[i]),
            encode_utf8(#[trigger] s[j]),
        )
}

/// The catalog invariant: every record is well formed, the names are
/// pairwise distinct, and the records are sorted ascending by name.
pub open spec fn catalog_ok(c: Seq<FontInfo>) -> bool {
    &&& forall|i: int| 0 <= i < c.len() ==> record_ok(#[trigger] c[i])
    &&& sorted_names(names_of(c))
    &&& names_of(c).no_duplicates()
}

/// The first occurrence of each name, in the order the names arrived.
pub open spec fn dedup_of(fams: Seq<Seq<char>>) -> Seq<Seq<char>>
    decreases fams.len(),
{
    if fams.len() == 0 {
        Seq::empty()
    } else {
        let pre = dedup_of(fams.drop_last());
        if fams.drop_last().contains(fams.last()) {
            pre
        } else {
            pre.push(fams.last())
        }
    }
}

/// The families that enter the catalog: the first occurrence of each name
/// whose resolution flag, at that occurrence, is set.
pub open spec fn kept_of(fams: Seq<Seq<char>>, res: Seq<bool>) -> Seq<Seq<char>>
    recommends
        fams.len() == res.len(),
    decreases fams.len(),
{
    if fams.len() == 0 {
        Seq::empty()
    } else {
        let pre = kept_of(fams.drop_last(), res.drop_last());
        if fams.drop_last().contains(fams.last()) {
            pre
        } else if res.len() > 0 && res.last() {
            pre.push(fams.last())
        } else {
            pre
        }
    }
}

proof fn lemma_contains_split<A>(s: Seq<A>, x: A)
    requires
        s.len() > 0,
    ensures
        s.contains(x) <==> (s.drop_last().contains(x) || s.last() == x),
{
    if s.drop_last().contains(x) {
        let m = choose|m: int| 0 <= m < s.drop_last().len() && s.drop_last()[m] == x;
        assert(s[m] == x);
    }
    if s.last() == x {
        assert(s[s.len() - 1] == x);
    }
    if s.contains(x) {
        let k = choose|k: int| 0 <= k < s.len() && s[k] == x;
        if k < s.len() - 1 {
            assert(s.drop_last()[k] == x);
        }
    }
}

proof fn lemma_push_no_duplicates<A>(s: Seq<A>, x: A)
    requires
        s.no_duplicates(),
        !s.contains(x),
    ensures
        s.push(x).no_duplicates(),
{
    let t = s.push(x);
    assert forall|i: int, j: int| 0 <= i < t.len() && 0 <= j < t.len() && i != j implies t[i]
        != t[j] by {
        if i < s.len() && j < s.len() {
            assert(t[i] == s[i] && t[j] == s[j]);
        } else if i < s.len() {
            assert(t[j] == x && t[i] == s[i]);
            assert(s.contains(s[i]));
        } else {
            assert(t[i] == x && t[j] == s[j]);
            assert(s.contains(s[j]));
        }
    }
}

/// Deduplication neither loses nor invents names.
pub proof fn lemma_dedup_contains(fams: Seq<Seq<char>>, x: Seq<char>)
    ensures
        dedup_of(fams).contains(x) <==> fams.contains(x),
    decreases fams.len(),
{
    if fams.len() > 0 {
        let dl = fams.drop_last();
        lemma_dedup_contains(dl, x);
        let pre = dedup_of(dl);
        lemma_contains_split(fams, x);
        if !dl.contains(fams.last()) {
            let t = pre.push(fams.last());
            assert(t.drop_last() =~= pre);
            lemma_contains_split(t, x);
        }
    }
}

/// Deduplication leaves no duplicate names.
pub proof fn lemma_dedup_no_dup(fams: Seq<Seq<char>>)
    ensures
        dedup_of(fams).no_duplicates(),
    decreases fams.len(),
{
    if fams.len() > 0 {
        lemma_dedup_no_dup(fams.drop_last());
        let pre = dedup_of(fams.drop_last());
        if !fams.drop_last().contains(fams.last()) {
            lemma_dedup_contains(fams.drop_last(), fams.last());
            lemma_push_no_duplicates(pre, fams.last());
        }
    }
}

/// Every kept family came from the listing.
pub proof fn lemma_kept_contains(fams: Seq<Seq<char>>, res: Seq<bool>, x: Seq<char>)
    ensures
        kept_of(fams, res).contains(x) ==> fams.contains(x),
    decreases fams.len(),
{
    if fams.len() > 0 {
        let dl = fams.drop_last();
        lemma_kept_contains(dl, res.drop_last(), x);
        let pre = kept_of(dl, res.drop_last());
        lemma_contains_split(fams, x);
        if !dl.contains(fams.last()) && res.len() > 0 && res.last() {
            let t = pre.push(fams.last());
            assert(t.drop_last() =~= pre);
            lemma_contains_split(t, x);
        }
    }
}

/// The kept families are pairwise distinct.
pub proof fn lemma_kept_no_dup(fams: Seq<Seq<char>>, res: Seq<bool>)
    ensures
        kept_of(fams, res).no_duplicates(),
    decreases fams.len(),
{
    if fams.len() > 0 {
        lemma_kept_no_dup(fams.drop_last(), res.drop_last());
        let pre = kept_of(fams.drop_last(), res.drop_last());
        if !fams.drop_last().contains(fams.last()) && res.len() > 0 && res.last() {
            lemma_kept_contains(fams.drop_last(), res.drop_last(), fams.last());
            lemma_push_no_duplicates(pre, fams.last());
        }
    }
}

/// A family whose first occurrence in the listing carries a set
/// resolution flag is kept.
pub proof fn lemma_kept_complete(fams: Seq<Seq<char>>, res: Seq<bool>, i: int)
    requires
        fams.len() == res.len(),
        0 <= i < fams.len(),
        res[i],
        forall|j: int| 0 <= j < i ==> fams[j] != fams[i],
    ensures
        kept_of(fams, res).contains(fams[i]),
    decreases fams.len(),
{
    let dl = fams.drop_last();
    let pre = kept_of(dl, res.drop_last());
    if i == fams.len() - 1 {
        if dl.contains(fams.last()) {
            let k = choose|k: int| 0 <= k < dl.len() && dl[k] == fams.last();
            assert(fams[k] == fams[i]);
            assert(false);
        }
        let t = pre.push(fams.last());
        assert(t[t.len() - 1] == fams[i]);
        assert(t.contains(fams[i]));
    } else {
        lemma_kept_complete(dl, res.drop_last(), i);
        assert(dl[i] == fams[i]);
        let k = choose|k: int| 0 <= k < pre.len() && pre[k] == fams[i];
        if !dl.contains(fams.last()) && res.len() > 0 && res.last() {
            let t = pre.push(fams.last());
            assert(t[k] == pre[k]);
            assert(t.contains(fams[i]));
        }
    }
}

/// Completeness of a catalog built from a listing: a family listed with
/// a successful resolution at its first occurrence has a well-formed
/// record in the catalog under exactly its name, with the weight and
/// category derived from that name.
pub proof fn lemma_catalog_complete(c: Seq<FontInfo>, fams: Seq<Seq<char>>, res: Seq<bool>, i: int)
    requires
        catalog_ok(c),
        names_of(c).to_multiset() == kept_of(fams, res).to_multiset(),
        fams.len() == res.len(),
        0 <= i < fams.len(),
        res[i],
        forall|j: int| 0 <= j < i ==> fams[j] != fams[i],
    ensures
        exists|k: int| 0 <= k < c.len() && (#[trigger] c[k]).name@ == fams[i] && record_ok(c[k]),
{
    lemma_kept_complete(fams, res, i);
    assert(kept_of(fams, res).to_multiset().count(fams[i]) > 0);
    assert(names_of(c).to_multiset().count(fams[i]) > 0);
    assert(names_of(c).contains(fams[i]));
    let k = choose|k: int| 0 <= k < names_of(c).len() && names_of(c)[k] == fams[i];
    assert(names_of(c)[k] == c[k].name@);
    assert(0 <= k < c.len() && c[k].name@ == fams[i] && record_ok(c[k]));
}

/// When every family resolves, the catalog keeps exactly the
/// deduplicated listing: one entry per distinct name, first occurrences
/// in their arriving order.
pub proof fn lemma_kept_all_resolved(fams: Seq<Seq<char>>, res: Seq<bool>)
    requires
        res.len() == fams.len(),
        forall|i: int| 0 <= i < res.len() ==> res[i],
    ensures
        kept_of(fams, res) == dedup_of(fams),
    decreases fams.len(),
{
    if fams.len() > 0 {
        lemma_kept_all_resolved(fams.drop_last(), res.drop_last());
        assert(res[res.len() - 1]);
    }
}

/// Whether some string of `v` holds the same characters as `x`.
fn vec_has(v: &Vec<String>, x: &String) -> (r: bool)
    ensures
        r == views_of(v@).contains(x@),
{
    let mut i: usize = 0;
    while i < v.len()
        invariant
            i <= v@.len(),
            forall|k: int| 0 <= k < i ==> v@[k]@ != x@,
        decreases v@.len() - i,
    {
        if v[i] == *x {
            assert(views_of(v@)[i as int] == v@[i as int]@);
            return true;
        }
        i = i + 1;
    }
    assert(forall|k: int| 0 <= k < v@.len() ==> views_of(v@)[k] == v@[k]@);
    false
}

/// Drop every later repetition of a family name, keeping first
/// occurrences in their arriving order; the match is exact, not
/// case-folded.
pub fn dedup_families(fams: Vec<String>) -> (r: Vec<String>)
    ensures
        views_of(r@) == dedup_of(views_of(fams@)),
        views_of(r@).no_duplicates(),
{
    proof {
        lemma_dedup_no_dup(views_of(fams@));
    }
    let mut out: Vec<String> = Vec::new();
    let mut i: usize = 0;
    proof {
        assert(views_of(fams@.take(0)) =~= Seq::<Seq<char>>::empty());
        assert(views_of(out@) =~= Seq::<Seq<char>>::empty());
    }
    while i < fams.len()
        invariant
            i <= fams@.len(),
            views_of(out@) == dedup_of(views_of(fams@.take(i as int))),
        decreases fams@.len() - i,
    {
        let ghost prev = views_of(fams@.take(i as int));
        let ghost cur = views_of(fams@.take(i as int + 1));
        proof {
            assert(cur.drop_last() =~= prev);
            assert(cur.last() == fams@[i as int]@);
            lemma_dedup_contains(prev, fams@[i as int]@);
        }
        let seen = vec_has(&out, &fams[i]);
        if !seen {
            let ghost old_out = out@;
            out.push(fams[i].clone());
            proof {
                assert(views_of(out@) =~= views_of(old_out).push(fams@[i as int]@));
            }
        }
        i = i + 1;
    }
    proof {
        assert(fams@.take(fams@.len() as int) =~= fams@);
    }
    out
}

/// Sort family names ascending by ordinal comparison of their UTF-8
/// bytes; a permutation of the input, keeping names pairwise distinct.
pub fn sort_families(v: Vec<String>) -> (r: Vec<String>)
    ensures
        views_of(r@).to_multiset() == views_of(v@).to_multiset(),
        sorted_names(views_of(r@)),
        views_of(v@).no_duplicates() ==> views_of(r@).no_duplicates(),
{
    let mut out: Vec<String> = Vec::new();
    let mut i: usize = 0;
    proof {
        assert(views_of(v@.take(0)) =~= Seq::<Seq<char>>::empty());
        assert(views_of(out@) =~= Seq::<Seq<char>>::empty());
        assert(views_of(out@).to_multiset() =~= views_of(v@.take(0)).to_multiset());
    }
    while i < v.len()
        invariant
            i <= v@.len(),
            views_of(out@).to_multiset() == views_of(v@.take(i as int)).to_multiset(),
            sorted_names(views_of(out@)),
        decreases v@.len() - i,
    {
        let x = v[i].clone();
        let mut j: usize = 0;
        while j < out.len() && str_le(out[j].as_str(), x.as_str())
            invariant
                j <= out@.len(),
                x@ == v@[i as int]@,
                forall|k: int|
                    0 <= k < j ==> lex_le(
                        encode_utf8(#[trigger] views_of(out@)[k]),
                        encode_utf8(x@),
                    ),
            decreases out@.len() - j,
        {
            proof {
                assert(views_of(out@)[j as int] == out@[j as int]@);
            }
            j = j + 1;
        }
        proof {
            assert forall|k: int| j <= k < out@.len() implies lex_le(
                encode_utf8(x@),
                encode_utf8(views_of(out@)[k]),
            ) by {
                assert(views_of(out@)[j as int] == out@[j as int]@);
                lemma_lex_le_total(encode_utf8(views_of(out@)[j as int]), encode_utf8(x@));
                if k > j {
                    lemma_lex_le_trans(
                        encode_utf8(x@),
                        encode_utf8(views_of(out@)[j as int]),
                        encode_utf8(views_of(out@)[k]),
                    );
                }
            }
        }
        let ghost old_out = views_of(out@);
        let ghost xv = x@;
        out.insert(j, x);
        proof {
            old_out.insert_ensures(j as int, xv);
            assert(views_of(out@) =~= old_out.insert(j as int, xv));
            assert forall|p: int, q: int| 0 <= p < q < views_of(out@).len() implies lex_le(
                encode_utf8(views_of(out@)[p]),
                encode_utf8(views_of(out@)[q]),
            ) by {
                let s = views_of(out@);
                if q < j {
                    assert(s[p] == old_out[p] && s[q] == old_out[q]);
                } else if p > j {
                    assert(s[p] == old_out[p - 1] && s[q] == old_out[q - 1]);
                } else if p == j {
                    assert(s[p] == xv && s[q] == old_out[q - 1]);
                } else if q == j {
                    assert(s[p] == old_out[p] && s[q] == xv);
                } else if p < j && q > j {
                    assert(s[p] == old_out[p] && s[q] == old_out[q - 1]);
                    lemma_lex_le_trans(
                        encode_utf8(old_out[p]),
                        encode_utf8(xv),
                        encode_utf8(old_out[q - 1]),
                    );
                }
            }
            assert(views_of(v@.take(i as int + 1)) =~= views_of(v@.take(i as int)).push(xv));
            assert(views_of(out@).to_multiset() == views_of(v@.take(i as int + 1)).to_multiset());
        }
        i = i + 1;
    }
    proof {
        assert(v@.take(v@.len() as int) =~= v@);
        if views_of(v@).no_duplicates() {
            views_of(v@).lemma_multiset_has_no_duplicates();
            views_of(out@).lemma_multiset_has_no_duplicates_conv();
        }
    }
    out
}

/// Build one well-formed record per family name, in the given order.
pub fn make_records(fams: &Vec<String>) -> (r: Vec<FontInfo>)
    ensures
        r@.len() == fams@.len(),
        forall|i: int|
            0 <= i < r@.len() ==> (#[trigger] r@[i]).name@ == fams@[i]@ && record_ok(r@[i]),
{
    let mut out: Vec<FontInfo> = Vec::new();
    let mut i: usize = 0;
    while i < fams.len()
        invariant
            i <= fams@.len(),
            out@.len() == i,
            forall|k: int|
                0 <= k < i ==> (#[trigger] out@[k]).name@ == fams@[k]@ && record_ok(out@[k]),
        decreases fams@.len() - i,
    {
        let s = &fams[i];
        let font_type = classify_font(s.as_str());
        let weight = detect_font_weight(s.as_str());
        out.push(
            FontInfo {
                name: s.clone(),
                family: s.clone(),
                style: "normal".to_owned(),
                weight,
                font_type,
            },
        );
        i = i + 1;
    }
    out
}

/// Assemble the catalog from the outcome of one provider listing.
///
/// The listing is either the family names the provider returned, paired
/// with one resolution flag per position, or the cause of its failure.
/// On failure the whole operation fails with a single message and no
/// partial catalog; otherwise the catalog holds exactly one well-formed
/// record for each first-seen, resolved family name, sorted ascending.
pub fn catalog_from_listing(listing: Result<Vec<String>, String>, resolved: Vec<bool>) -> (r:
    Result<Vec<FontInfo>, String>)
    requires
        listing matches Ok(fams) ==> fams@.len() == resolved@.len(),
    ensures
        listing matches Err(cause) ==> r matches Err(m) && m@ == "Failed to get font families: "@
            + cause@,
        listing matches Ok(fams) ==> r matches Ok(c) && catalog_ok(c@) && names_of(
            c@,
        ).to_multiset() == kept_of(views_of(fams@), resolved@).to_multiset(),
{
    match listing {
        Err(cause) => {
            let mut msg = "Failed to get font families: ".to_owned();
            msg.append(cause.as_str());
            Err(msg)
        },
        Ok(fams) => {
            let mut kept: Vec<String> = Vec::new();
            let mut seen: Vec<String> = Vec::new();
            let mut i: usize = 0;
            proof {
                assert(views_of(fams@.take(0)) =~= Seq::<Seq<char>>::empty());
                assert(views_of(seen@) =~= Seq::<Seq<char>>::empty());
                assert(views_of(kept@) =~= Seq::<Seq<char>>::empty());
            }
            while i < fams.len()
                invariant
                    i <= fams@.len(),
                    fams@.len() == resolved@.len(),
                    views_of(seen@) == dedup_of(views_of(fams@.take(i as int))),
                    views_of(kept@) == kept_of(
                        views_of(fams@.take(i as int)),
                        resolved@.take(i as int),
                    ),
                decreases fams@.len() - i,
            {
                let ghost prev = views_of(fams@.take(i as int));
                let ghost cur = views_of(fams@.take(i as int + 1));
                proof {
                    assert(cur.drop_last() =~= prev);
                    assert(cur.last() == fams@[i as int]@);
                    assert(resolved@.take(i as int + 1).drop_last() =~= resolved@.take(i as int));
                    assert(resolved@.take(i as int + 1).last() == resolved@[i as int]);
                    lemma_dedup_contains(prev, fams@[i as int]@);
                }
                let is_seen = vec_has(&seen, &fams[i]);
                if !is_seen {
                    let ghost old_seen = seen@;
                    seen.push(fams[i].clone());
                    proof {
                        assert(views_of(seen@) =~= views_of(old_seen).push(fams@[i as int]@));
                    }
                    if resolved[i] {
                        let ghost old_kept = kept@;
                        kept.push(fams[i].clone());
                        proof {
                            assert(views_of(kept@) =~= views_of(old_kept).push(fams@[i as int]@));
                        }
                    }
                }
                i = i + 1;
            }
            proof {
                assert(fams@.take(fams@.len() as int) =~= fams@);
                assert(resolved@.take(fams@.len() as int) =~= resolved@);
                lemma_kept_no_dup(views_of(fams@), resolved@);
            }
            let sorted = sort_families(kept);
            let records = make_records(&sorted);
            proof {
                assert(names_of(records@) =~= views_of(sorted@));
            }
            Ok(records)
        },
    }
}

} // verus!
