//! Extraction of medical terminology from article text.
//!
//! Titles and content are scanned, case-insensitively, for a fixed list
//! of medical keywords; the terms found are joined into one
//! space-separated string, for indexing without stemming.  Lowercasing
//! is delegated to the standard library; the scan itself is verified.

use vstd::prelude::*;

verus! {

/// What `str::to_lowercase` returns for this character sequence.
pub uninterp spec fn lower_of(s: Seq<char>) -> Seq<char>;

/// Relies on str::to_lowercase: the result depends on the characters
/// alone.
#[verifier::external_body]
pub(crate) fn lowercase(s: &str) -> (r: String)
    ensures
        r@ == lower_of(s@),
{
    s.to_lowercase()
}

/// Whether `needle` occurs as a contiguous run inside `haystack`.
pub open spec fn contains_seq(haystack: Seq<char>, needle: Seq<char>) -> bool {
    exists|i: int|
        0 <= i && i + needle.len() <= haystack.len() && #[trigger] haystack.subrange(
            i,
            i + needle.len(),
        ) == needle
}

/// Whether `needle` starts at position `i` of `haystack`.
fn matches_at(haystack: &str, needle: &str, i: usize, hl: usize, nl: usize) -> (r: bool)
    requires
        hl == haystack@.len(),
        nl == needle@.len(),
        i + nl <= hl,
    ensures
        r == (haystack@.subrange(i as int, i as int + needle@.len() as int) == needle@),
{
    let mut k: usize = 0;
    while k < nl
        invariant
            hl == haystack@.len(),
            nl == needle@.len(),
            i + nl <= hl,
            0 <= k <= nl,
            forall|m: int| 0 <= m < k ==> haystack@[i + m] == #[trigger] needle@[m],
        decreases nl - k,
    {
        let hc = haystack.get_char(i + k);
        let nc = needle.get_char(k);
        if hc != nc {
            proof {
                if haystack@.subrange(i as int, i as int + nl as int) == needle@ {
                    assert(haystack@.subrange(i as int, i as int + nl as int)[k as int]
                        == needle@[k as int]);
                }
            }
            return false;
        }
        k = k + 1;
    }
    proof {
        assert(haystack@.subrange(i as int, i as int + nl as int) =~= needle@);
    }
    true
}

/// Whether `needle` occurs anywhere inside `haystack`.
pub fn contains_sub(haystack: &str, needle: &str) -> (r: bool)
    ensures
        r == contains_seq(haystack@, needle@),
{
    let hl = haystack.unicode_len();
    let nl = needle.unicode_len();
    if nl == 0 {
        proof {
            assert(haystack@.subrange(0, 0 + needle@.len() as int) =~= needle@);
            assert(contains_seq(haystack@, needle@));
        }
        return true;
    }
    if nl > hl {
        proof {
            if contains_seq(haystack@, needle@) {
                let w = choose|i: int|
                    0 <= i && i + needle@.len() <= haystack@.len() && #[trigger] haystack@.subrange(
                        i,
                        i + needle@.len(),
                    ) == needle@;
                assert(w + needle@.len() <= haystack@.len());
            }
        }
        return false;
    }
    let mut i: usize = 0;
    while i <= hl - nl
        invariant
            hl == haystack@.len(),
            nl == needle@.len(),
            nl <= hl,
            1 <= nl,
            0 <= i <= hl - nl + 1,
            forall|j: int|
                0 <= j < i ==> #[trigger] haystack@.subrange(j, j + needle@.len() as int)
                    != needle@,
        decreases hl - i,
    {
        if matches_at(haystack, needle, i, hl, nl) {
            assert(contains_seq(haystack@, needle@));
            return true;
        }
        i = i + 1;
    }
    proof {
        if contains_seq(haystack@, needle@) {
            let w = choose|j: int|
                0 <= j && j + needle@.len() <= haystack@.len() && #[trigger] haystack@.subrange(
                    j,
                    j + needle@.len(),
                ) == needle@;
            assert(haystack@.subrange(w, w + needle@.len() as int) != needle@);
        }
    }
    false
}

/// The fixed list of medical keywords scanned for.
pub open spec fn spec_keywords() -> Seq<Seq<char>> {
    seq![
        "hemorrhage"@,
        "tourniquet"@,
        "anaphylaxis"@,
        "epinephrine"@,
        "hypothermia"@,
        "hyperthermia"@,
        "dehydration"@,
        "fracture"@,
        "dislocation"@,
        "pneumothorax"@,
        "myocardial"@,
        "infarction"@,
        "hypoglycemia"@,
        "hyperglycemia"@,
        "antiseptic"@,
    ]
}

/// The medical keywords, in scan order.
pub fn medical_keywords() -> (v: Vec<&'static str>)
    ensures
        v@.len() == spec_keywords().len(),
        forall|i: int| 0 <= i < v@.len() ==> #[trigger] v@[i]@ == spec_keywords()[i],
{
    let mut v: Vec<&'static str> = Vec::new();
    v.push("hemorrhage");
    v.push("tourniquet");
    v.push("anaphylaxis");
    v.push("epinephrine");
    v.push("hypothermia");
    v.push("hyperthermia");
    v.push("dehydration");
    v.push("fracture");
    v.push("dislocation");
    v.push("pneumothorax");
    v.push("myocardial");
    v.push("infarction");
    v.push("hypoglycemia");
    v.push("hyperglycemia");
    v.push("antiseptic");
    proof {
        assert forall|i: int| 0 <= i < v@.len() implies #[trigger] v@[i]@ == spec_keywords()[i] by {
            assert(v@.len() == 15);
        }
    }
    v
}

/// The keywords of the list that occur in the lowered text, in list
/// order.
pub open spec fn spec_terms_found(ks: Seq<Seq<char>>, lowered: Seq<char>) -> Seq<Seq<char>>
    decreases ks.len(),
{
    if ks.len() == 0 {
        Seq::empty()
    } else {
        spec_terms_found(ks.drop_last(), lowered) + (if contains_seq(lowered, ks.last()) {
            seq![ks.last()]
        } else {
            Seq::empty()
        })
    }
}

/// Terms joined with single spaces, in order.
pub open spec fn spec_joined(ts: Seq<Seq<char>>) -> Seq<char>
    decreases ts.len(),
{
    if ts.len() == 0 {
        Seq::empty()
    } else if ts.len() == 1 {
        ts.last()
    } else {
        spec_joined(ts.drop_last()) + seq![' '] + ts.last()
    }
}

/// The medical terms a title and content yield: every keyword that
/// occurs in the lowercased text, space-separated and in list order.
pub open spec fn spec_medical_terms(title: Seq<char>, content: Seq<char>) -> Seq<char> {
    spec_joined(spec_terms_found(spec_keywords(), lower_of(title + seq![' '] + content)))
}

/// Scans a title and its content for the medical keywords and returns
/// the terms found, space-separated, for indexing without stemming.
pub fn extract_medical_terms(title: &str, content: &str) -> (r: String)
    ensures
        r@ == spec_medical_terms(title@, content@),
{
    let mut joined = String::from_str(title);
    joined.append(" ");
    joined.append(content);
    proof {
        reveal_strlit(" ");
        assert(" "@ =~= seq![' ']);
        assert(joined@ == title@ + seq![' '] + content@);
    }
    let combined = lowercase(joined.as_str());
    let ghost lowered = lower_of(title@ + seq![' '] + content@);
    let keywords = medical_keywords();
    let ghost ks = spec_keywords();
    let mut r = String::new();
    let mut count: usize = 0;
    proof {
        assert(ks.take(0) =~= Seq::<Seq<char>>::empty());
    }
    let mut i: usize = 0;
    while i < keywords.len()
        invariant
            combined@ == lowered,
            ks == spec_keywords(),
            keywords@.len() == ks.len(),
            forall|j: int| 0 <= j < keywords@.len() ==> #[trigger] keywords@[j]@ == ks[j],
            0 <= i <= ks.len(),
            r@ == spec_joined(spec_terms_found(ks.take(i as int), lowered)),
            count == spec_terms_found(ks.take(i as int), lowered).len(),
            count <= i,
        decreases ks.len() - i,
    {
        let ghost found_before = spec_terms_found(ks.take(i as int), lowered);
        proof {
            assert(ks.take(i + 1).drop_last() =~= ks.take(i as int));
            assert(ks.take(i + 1).last() == ks[i as int]);
        }
        if contains_sub(combined.as_str(), keywords[i]) {
            assert(contains_seq(lowered, ks[i as int]));
            if count > 0 {
                r.append(" ");
                proof {
                    reveal_strlit(" ");
                    assert(" "@ =~= seq![' ']);
                }
            }
            r.append(keywords[i]);
            proof {
                let found_after = spec_terms_found(ks.take(i + 1), lowered);
                assert(found_after =~= found_before.push(ks[i as int]));
                assert(found_after.drop_last() =~= found_before);
                if found_before.len() == 0 {
                    assert(r@ =~= spec_joined(found_after));
                } else {
                    assert(r@ =~= spec_joined(found_before) + seq![' '] + ks[i as int]);
                    assert(r@ =~= spec_joined(found_after));
                }
            }
            count = count + 1;
        } else {
            proof {
                assert(spec_terms_found(ks.take(i + 1), lowered) =~= found_before);
            }
        }
        i = i + 1;
    }
    proof {
        assert(ks.take(ks.len() as int) =~= ks);
    }
    r
}

} // verus!
